//! Lifecycle of a set of MCP servers: which are connected, which failed and
//! why, and which the run uses.  Servers are named by their position in the
//! list the manager was made with; the connections themselves are made by the
//! caller, which hands each outcome back here.
use vstd::prelude::*;

use crate::errors::{error_text, AgentsError};
use crate::ordered::StrMap;
use crate::text::{copy_string, lines_view, str_eq};

verus! {

/// What a manager stands for.
pub struct ManagerView {
    pub servers: Seq<Seq<char>>,
    pub active: Seq<usize>,
    pub connected: Set<Seq<char>>,
    pub failed: Seq<Seq<char>>,
    pub errors: Map<Seq<char>, Seq<char>>,
    pub drop_failed_servers: bool,
    pub strict: bool,
}

/// Keeps MCP servers' connection state and exposes the servers in use.
pub struct MCPServerManager {
    server_names: Vec<String>,
    active_servers: Vec<usize>,
    connected_server_names: StrMap<()>,
    pub failed_servers: Vec<String>,
    pub errors: StrMap<String>,
    pub drop_failed_servers: bool,
    pub strict: bool,
}

/// The positions `0..n`, in order.
pub open spec fn all_positions(n: nat) -> Seq<usize> {
    Seq::new(n, |i: int| i as usize)
}

/// The names of the servers at the given positions.
pub open spec fn names_at(servers: Seq<Seq<char>>, at: Seq<usize>) -> Seq<Seq<char>> {
    at.map_values(|i: usize| servers[i as int])
}

/// The manager after one connection attempt of the server named `name`: a
/// success marks it connected; a failure records the error under its name and
/// lists it as failed, once.
pub open spec fn after_connection(m: ManagerView, name: Seq<char>, outcome: Result<(), AgentsError>) -> ManagerView {
    match outcome {
        Ok(_) => ManagerView { connected: m.connected.insert(name), ..m },
        Err(e) => ManagerView {
            failed: if m.failed.contains(name) {
                m.failed
            } else {
                m.failed.push(name)
            },
            errors: m.errors.insert(name, error_text(e)),
            ..m
        },
    }
}

/// What a connection attempt reports: a success, a failure that the
/// manager tolerates, or (in strict mode) the failure itself.
pub open spec fn connection_report(strict: bool, outcome: Result<(), AgentsError>) -> Result<bool, AgentsError> {
    match outcome {
        Ok(_) => Ok(true),
        Err(e) => if strict {
            Err(e)
        } else {
            Ok(false)
        },
    }
}

/// Whether `name` is in the list.
fn names_contain(list: &Vec<String>, name: &str) -> (res: bool)
    ensures
        res == lines_view(list@).contains(name@),
{
    let mut i: usize = 0;
    while i < list.len()
        invariant
            i <= list@.len(),
            forall|j: int| 0 <= j < i ==> lines_view(list@)[j] != name@,
        decreases list@.len() - i,
    {
        if str_eq(list[i].as_str(), name) {
            assert(lines_view(list@)[i as int] == name@);
            return true;
        }
        i = i + 1;
    }
    false
}

impl MCPServerManager {
    /// What this manager stands for.
    pub closed spec fn view(&self) -> ManagerView {
        ManagerView {
            servers: lines_view(self.server_names@),
            active: self.active_servers@,
            connected: self.connected_server_names.view().dom(),
            failed: lines_view(self.failed_servers@),
            errors: self.errors.view().map_values(|s: String| s@),
            drop_failed_servers: self.drop_failed_servers,
            strict: self.strict,
        }
    }

    /// Every server in use is one of the manager's servers.
    pub open spec fn wf(&self) -> bool {
        forall|i: int| 0 <= i < self.view().active.len() ==> #[trigger] self.view().active[i] < self.view().servers.len()
    }

    /// A manager of the named servers, all in use, none connected yet; failed
    /// servers are dropped and failures tolerated unless said otherwise.
    pub fn new(server_names: Vec<String>) -> (res: Self)
        ensures
            res.wf(),
            res.view() == (ManagerView {
                servers: lines_view(server_names@),
                active: all_positions(server_names@.len()),
                connected: Set::empty(),
                failed: Seq::empty(),
                errors: Map::empty(),
                drop_failed_servers: true,
                strict: false,
            }),
    {
        let mut active: Vec<usize> = Vec::new();
        let mut i: usize = 0;
        while i < server_names.len()
            invariant
                i <= server_names@.len(),
                active@ =~= all_positions(i as nat),
            decreases server_names@.len() - i,
        {
            active.push(i);
            i = i + 1;
        }
        let res = MCPServerManager {
            server_names,
            active_servers: active,
            connected_server_names: StrMap::new(),
            failed_servers: Vec::new(),
            errors: StrMap::new(),
            drop_failed_servers: true,
            strict: false,
        };
        assert(res.view().connected =~= Set::<Seq<char>>::empty());
        assert(res.view().failed =~= Seq::<Seq<char>>::empty());
        assert(res.view().errors =~= Map::<Seq<char>, Seq<char>>::empty());
        res
    }

    /// The positions of the servers in use, in order.
    pub fn active_servers(&self) -> (res: Vec<usize>)
        ensures
            res@ == self.view().active,
    {
        let mut out: Vec<usize> = Vec::new();
        let mut i: usize = 0;
        while i < self.active_servers.len()
            invariant
                i <= self.active_servers@.len(),
                out@ =~= self.active_servers@.subrange(0, i as int),
            decreases self.active_servers@.len() - i,
        {
            out.push(self.active_servers[i]);
            i = i + 1;
        }
        assert(self.active_servers@.subrange(0, self.active_servers@.len() as int) =~= self.active_servers@);
        out
    }

    /// The names of the servers in use, in order.
    pub fn active_server_names(&self) -> (res: Vec<String>)
        requires
            self.wf(),
        ensures
            lines_view(res@) == names_at(self.view().servers, self.view().active),
    {
        let ghost v = self.view();
        let mut out: Vec<String> = Vec::new();
        let mut i: usize = 0;
        while i < self.active_servers.len()
            invariant
                v == self.view(),
                self.wf(),
                i <= self.active_servers@.len(),
                lines_view(out@) =~= names_at(v.servers, v.active.subrange(0, i as int)),
            decreases self.active_servers@.len() - i,
        {
            let at = self.active_servers[i];
            assert(v.active[i as int] == at);
            let ghost before = out@;
            out.push(copy_string(&self.server_names[at]));
            assert(lines_view(out@) =~= lines_view(before).push(v.servers[at as int]));
            assert(v.active.subrange(0, i + 1) =~= v.active.subrange(0, i as int).push(at));
            i = i + 1;
        }
        assert(v.active.subrange(0, v.active.len() as int) =~= v.active);
        out
    }

    /// Takes the outcome of a connection attempt of the server at `index` into
    /// account, and says whether it connected; in strict mode a failure is
    /// given back as the error.
    pub fn connect_server(&mut self, index: usize, outcome: Result<(), AgentsError>) -> (res: Result<bool, AgentsError>)
        requires
            old(self).wf(),
            index < old(self).view().servers.len(),
        ensures
            final(self).wf(),
            final(self).view() == after_connection(old(self).view(), old(self).view().servers[index as int], outcome),
            res == connection_report(old(self).view().strict, outcome),
            !old(self).view().failed.no_duplicates() || final(self).view().failed.no_duplicates(),
    {
        let ghost v = self.view();
        let name = copy_string(&self.server_names[index]);
        assert(name@ == v.servers[index as int]);
        let res = match outcome {
            Ok(()) => {
                self.connected_server_names.insert(name, ());
                assert(self.view().connected =~= v.connected.insert(name@));
                Ok(true)
            },
            Err(error) => {
                if !names_contain(&self.failed_servers, name.as_str()) {
                    self.failed_servers.push(copy_string(&name));
                    assert(self.view().failed =~= v.failed.push(name@));
                }
                let text = error.to_string();
                self.errors.insert(name, text);
                assert(self.view().errors =~= v.errors.insert(name@, error_text(error)));
                if self.strict {
                    Err(error)
                } else {
                    Ok(false)
                }
            },
        };
        assert(self.view().active == v.active && self.view().servers == v.servers);
        res
    }
}

/// The positions below `k` of the servers whose names are in `names`, in order.
pub open spec fn positions_named(servers: Seq<Seq<char>>, names: Set<Seq<char>>, k: nat) -> Seq<usize>
    decreases k,
{
    if k == 0 {
        Seq::empty()
    } else {
        let prev = positions_named(servers, names, (k - 1) as nat);
        if names.contains(servers[k - 1]) {
            prev.push((k - 1) as usize)
        } else {
            prev
        }
    }
}

/// The positions in `at` whose servers' names are not in `names`, in order.
pub open spec fn positions_not_named(servers: Seq<Seq<char>>, at: Seq<usize>, names: Set<Seq<char>>) -> Seq<usize>
    decreases at.len(),
{
    if at.len() == 0 {
        Seq::empty()
    } else {
        let prev = positions_not_named(servers, at.drop_last(), names);
        if names.contains(servers[at.last() as int]) {
            prev
        } else {
            prev.push(at.last())
        }
    }
}

/// The names a list holds, as a set.
pub open spec fn name_set(names: Seq<Seq<char>>) -> Set<Seq<char>> {
    Set::new(|n: Seq<char>| names.contains(n))
}

/// The connected servers below `k` to clean up, from the last one down, each
/// name once and none already in `cleaned`.
pub open spec fn cleanup_from(
    servers: Seq<Seq<char>>,
    connected: Set<Seq<char>>,
    cleaned: Set<Seq<char>>,
    k: nat,
) -> Seq<usize>
    decreases k,
{
    if k == 0 {
        Seq::empty()
    } else {
        let j = k - 1;
        if connected.contains(servers[j]) && !cleaned.contains(servers[j]) {
            seq![j as usize] + cleanup_from(servers, connected, cleaned.insert(servers[j]), j as nat)
        } else {
            cleanup_from(servers, connected, cleaned, j as nat)
        }
    }
}

/// The servers to clean up, in order: the `extra` one first, then the
/// connected ones from the last one down, each name once.
pub open spec fn cleanup_plan(m: ManagerView, extra: Option<usize>) -> Seq<usize> {
    match extra {
        Some(x) => seq![x] + cleanup_from(m.servers, m.connected, set![m.servers[x as int]], m.servers.len()),
        None => cleanup_from(m.servers, m.connected, Set::empty(), m.servers.len()),
    }
}

/// The positions that `positions_named` gives are below its bound.
proof fn lemma_positions_named_below(servers: Seq<Seq<char>>, names: Set<Seq<char>>, k: nat)
    requires
        k <= usize::MAX,
    ensures
        forall|i: int| 0 <= i < positions_named(servers, names, k).len() ==> #[trigger] positions_named(
            servers,
            names,
            k,
        )[i] < k,
    decreases k,
{
    if k > 0 {
        lemma_positions_named_below(servers, names, (k - 1) as nat);
        let prev = positions_named(servers, names, (k - 1) as nat);
        let cur = positions_named(servers, names, k);
        assert forall|i: int| 0 <= i < cur.len() implies #[trigger] cur[i] < k by {
            if i < prev.len() {
                assert(cur[i] == prev[i]);
            }
        }
    }
}

/// The positions that `positions_not_named` keeps come from `at`.
proof fn lemma_positions_not_named_from(servers: Seq<Seq<char>>, at: Seq<usize>, names: Set<Seq<char>>, n: nat)
    requires
        forall|i: int| 0 <= i < at.len() ==> #[trigger] at[i] < n,
    ensures
        forall|i: int| 0 <= i < positions_not_named(servers, at, names).len() ==> #[trigger] positions_not_named(
            servers,
            at,
            names,
        )[i] < n,
    decreases at.len(),
{
    if at.len() > 0 {
        lemma_positions_not_named_from(servers, at.drop_last(), names, n);
        let prev = positions_not_named(servers, at.drop_last(), names);
        let cur = positions_not_named(servers, at, names);
        assert(at[at.len() - 1] < n);
        assert forall|i: int| 0 <= i < cur.len() implies #[trigger] cur[i] < n by {
            if i < prev.len() {
                assert(cur[i] == prev[i]);
            }
        }
    }
}

/// A connect-all pass in progress: the next server to connect, the servers
/// kept so far, and what was connected and in use before the pass.
pub struct ConnectAllRun {
    next: usize,
    accepted: Vec<usize>,
    previous_connected: StrMap<()>,
    previous_active: Vec<usize>,
}

impl ConnectAllRun {
    /// The position of the next server to connect.
    pub closed spec fn next_view(&self) -> nat {
        self.next as nat
    }

    /// The servers kept so far, in order.
    pub closed spec fn accepted_view(&self) -> Seq<usize> {
        self.accepted@
    }

    /// The servers connected before the pass.
    pub closed spec fn previous_connected_view(&self) -> Set<Seq<char>> {
        self.previous_connected.view().dom()
    }

    /// The servers in use before the pass.
    pub closed spec fn previous_active_view(&self) -> Seq<usize> {
        self.previous_active@
    }
}

/// A pass that retries the failed servers: the names that had failed, the
/// servers to retry, the next one, and those that connected.
pub struct ReconnectRun {
    failed: Vec<String>,
    retry: Vec<usize>,
    next: usize,
    retried: Vec<usize>,
}

impl ReconnectRun {
    /// The names that had failed before the pass.
    pub closed spec fn failed_view(&self) -> Seq<Seq<char>> {
        lines_view(self.failed@)
    }

    /// The servers to retry, in order.
    pub closed spec fn retry_view(&self) -> Seq<usize> {
        self.retry@
    }

    /// How many servers were retried so far.
    pub closed spec fn next_view(&self) -> nat {
        self.next as nat
    }

    /// The retried servers that connected, in order.
    pub closed spec fn retried_view(&self) -> Seq<usize> {
        self.retried@
    }
}

impl MCPServerManager {
    /// Whether a connect-all pass names only servers of this manager.
    pub open spec fn fits(&self, run: &ConnectAllRun) -> bool {
        &&& forall|i: int| 0 <= i < run.accepted_view().len() ==> #[trigger] run.accepted_view()[i] < self.view().servers.len()
        &&& forall|i: int| 0 <= i < run.previous_active_view().len() ==> #[trigger] run.previous_active_view()[i] < self.view().servers.len()
    }

    /// Whether a retry pass names only servers of this manager.
    pub open spec fn fits_retry(&self, run: &ReconnectRun) -> bool {
        &&& forall|i: int| 0 <= i < run.retry_view().len() ==> #[trigger] run.retry_view()[i] < self.view().servers.len()
        &&& forall|i: int| 0 <= i < run.retried_view().len() ==> #[trigger] run.retried_view()[i] < self.view().servers.len()
    }

    /// Starts connecting every server: what was connected and in use is kept
    /// aside, and the connections, failures and errors start afresh.
    pub fn begin_connect_all(&mut self) -> (run: ConnectAllRun)
        requires
            old(self).wf(),
        ensures
            final(self).wf(),
            final(self).fits(&run),
            final(self).view() == (ManagerView {
                connected: Set::empty(),
                failed: Seq::empty(),
                errors: Map::empty(),
                ..old(self).view()
            }),
            run.next_view() == 0,
            run.accepted_view() == Seq::<usize>::empty(),
            run.previous_connected_view() == old(self).view().connected,
            run.previous_active_view() == old(self).view().active,
    {
        let ghost v = self.view();
        let mut previous_connected: StrMap<()> = StrMap::new();
        std::mem::swap(&mut previous_connected, &mut self.connected_server_names);
        let previous_active = self.active_servers();
        self.failed_servers = Vec::new();
        self.errors = StrMap::new();
        let run = ConnectAllRun { next: 0, accepted: Vec::new(), previous_connected, previous_active };
        assert(self.view().connected =~= Set::<Seq<char>>::empty());
        assert(self.view().failed =~= Seq::<Seq<char>>::empty());
        assert(self.view().errors =~= Map::<Seq<char>, Seq<char>>::empty());
        assert(self.view().active == v.active && self.view().servers == v.servers);
        run
    }

    /// The next server a connect-all pass connects, if any is left.
    pub fn pending_server(&self, run: &ConnectAllRun) -> (res: Option<usize>)
        ensures
            res == (if run.next_view() < self.view().servers.len() {
                Some(run.next_view() as usize)
            } else {
                None::<usize>
            }),
    {
        if run.next < self.server_names.len() {
            Some(run.next)
        } else {
            None
        }
    }

    /// Takes the outcome of connecting the pass's next server into account: a
    /// connected server is kept, a failed one too unless failed servers are
    /// dropped; in strict mode a failure ends the pass with its error.
    pub fn connect_all_step(&mut self, run: &mut ConnectAllRun, outcome: Result<(), AgentsError>) -> (res: Result<(), AgentsError>)
        requires
            old(self).wf(),
            old(self).fits(&*old(run)),
            old(run).next_view() < old(self).view().servers.len(),
        ensures
            final(self).wf(),
            final(self).fits(&*final(run)),
            final(self).view() == after_connection(
                old(self).view(),
                old(self).view().servers[old(run).next_view() as int],
                outcome,
            ),
            match connection_report(old(self).view().strict, outcome) {
                Ok(connected) => {
                    &&& res is Ok
                    &&& final(run).next_view() == old(run).next_view() + 1
                    &&& final(run).accepted_view() == (if connected || !old(self).view().drop_failed_servers {
                        old(run).accepted_view().push(old(run).next_view() as usize)
                    } else {
                        old(run).accepted_view()
                    })
                    &&& final(run).previous_connected_view() == old(run).previous_connected_view()
                    &&& final(run).previous_active_view() == old(run).previous_active_view()
                },
                Err(e) => res == Err::<(), AgentsError>(e),
            },
    {
        let index = run.next;
        let n = self.server_names.len();
        assert(n == self.view().servers.len());
        let res = match self.connect_server(index, outcome) {
            Ok(connected) => {
                let ghost before = run.accepted@;
                if connected || !self.drop_failed_servers {
                    run.accepted.push(index);
                }
                assert forall|i: int| 0 <= i < run.accepted@.len() implies #[trigger] run.accepted@[i] < n by {
                    if i < before.len() {
                        assert(run.accepted@[i] == before[i]);
                        assert(old(run).accepted_view()[i] < old(self).view().servers.len());
                    } else {
                        assert(run.accepted@[i] == index);
                    }
                }
                run.next = index + 1;
                Ok(())
            },
            Err(error) => Err(error),
        };
        assert(self.view().servers.len() == n);
        assert forall|i: int| 0 <= i < run.previous_active_view().len() implies #[trigger] run.previous_active_view()[i] < n by {
            assert(old(run).previous_active_view()[i] < old(self).view().servers.len());
        }
        assert forall|i: int| 0 <= i < run.accepted_view().len() implies #[trigger] run.accepted_view()[i] < n by {
            if res is Err {
                assert(old(run).accepted_view()[i] < old(self).view().servers.len());
            }
        }
        res
    }

    /// Ends a connect-all pass that tried every server: the servers kept are
    /// the ones in use.
    pub fn finish_connect_all(&mut self, run: ConnectAllRun)
        requires
            old(self).wf(),
            old(self).fits(&run),
            run.next_view() == old(self).view().servers.len(),
        ensures
            final(self).wf(),
            final(self).view() == (ManagerView { active: run.accepted_view(), ..old(self).view() }),
    {
        self.active_servers = run.accepted;
    }

    /// Ends a connect-all pass that failed in strict mode: nothing is
    /// connected any more, and the servers in use are those that were
    /// connected before the pass (when failed servers are dropped) or those
    /// that were in use before it.
    pub fn abort_connect_all(&mut self, run: ConnectAllRun)
        requires
            old(self).wf(),
            old(self).fits(&run),
        ensures
            final(self).wf(),
            final(self).view() == (ManagerView {
                connected: Set::empty(),
                active: if old(self).view().drop_failed_servers {
                    positions_named(
                        old(self).view().servers,
                        run.previous_connected_view(),
                        old(self).view().servers.len(),
                    )
                } else {
                    run.previous_active_view()
                },
                ..old(self).view()
            }),
    {
        let ghost v = self.view();
        self.connected_server_names = StrMap::new();
        if self.drop_failed_servers {
            let mut kept: Vec<usize> = Vec::new();
            let mut i: usize = 0;
            while i < self.server_names.len()
                invariant
                    v.servers == lines_view(self.server_names@),
                    i <= self.server_names@.len(),
                    kept@ == positions_named(v.servers, run.previous_connected_view(), i as nat),
                decreases self.server_names@.len() - i,
            {
                if run.previous_connected.contains_key(self.server_names[i].as_str()) {
                    kept.push(i);
                }
                i = i + 1;
            }
            proof {
                lemma_positions_named_below(v.servers, run.previous_connected_view(), v.servers.len());
            }
            self.active_servers = kept;
        } else {
            self.active_servers = run.previous_active;
        }
        assert(self.view().connected =~= Set::<Seq<char>>::empty());
    }

    /// The servers to clean up, in order: `extra` first, then each connected
    /// server from the last one down, each name once.
    pub fn cleanup_order(&self, extra: Option<usize>) -> (res: Vec<usize>)
        requires
            extra matches Some(x) ==> x < self.view().servers.len(),
        ensures
            res@ == cleanup_plan(self.view(), extra),
    {
        let ghost v = self.view();
        let mut out: Vec<usize> = Vec::new();
        let mut cleaned: StrMap<()> = StrMap::new();
        match extra {
            Some(x) => {
                out.push(x);
                cleaned.insert(copy_string(&self.server_names[x]), ());
                assert(cleaned.view().dom() =~= set![v.servers[x as int]]);
            },
            None => {
                assert(cleaned.view().dom() =~= Set::<Seq<char>>::empty());
            },
        }
        let ghost total = cleanup_plan(v, extra);
        let mut k: usize = self.server_names.len();
        assert(out@ + cleanup_from(v.servers, v.connected, cleaned.view().dom(), k as nat) =~= total);
        while k > 0
            invariant
                v == self.view(),
                k <= v.servers.len(),
                out@ + cleanup_from(v.servers, v.connected, cleaned.view().dom(), k as nat) == total,
            decreases k,
        {
            k = k - 1;
            let ghost before = out@;
            let ghost c = cleaned.view().dom();
            let name = self.server_names[k].as_str();
            assert(name@ == v.servers[k as int]);
            if self.connected_server_names.contains_key(name) && !cleaned.contains_key(name) {
                out.push(k);
                cleaned.insert(copy_string(&self.server_names[k]), ());
                assert(cleaned.view().dom() =~= c.insert(v.servers[k as int]));
                assert(out@ + cleanup_from(v.servers, v.connected, cleaned.view().dom(), k as nat) =~= before + (
                seq![k] + cleanup_from(v.servers, v.connected, cleaned.view().dom(), k as nat)));
            }
        }
        assert(out@ =~= out@ + cleanup_from(v.servers, v.connected, cleaned.view().dom(), 0));
        out
    }

    /// Ends a clean-up of every connected server: nothing is connected or in
    /// use any more.
    pub fn finish_cleanup_all(&mut self)
        requires
            old(self).wf(),
        ensures
            final(self).wf(),
            final(self).view() == (ManagerView { connected: Set::empty(), active: Seq::empty(), ..old(self).view() }),
    {
        self.connected_server_names = StrMap::new();
        self.active_servers = Vec::new();
        assert(self.view().connected =~= Set::<Seq<char>>::empty());
    }

    /// Starts retrying the failed servers: the failed names are set aside, the
    /// servers that bear them are the ones to retry, in order, and failures
    /// and errors start afresh.
    pub fn begin_reconnect_failed(&mut self) -> (run: ReconnectRun)
        requires
            old(self).wf(),
        ensures
            final(self).wf(),
            final(self).fits_retry(&run),
            final(self).view() == (ManagerView { failed: Seq::empty(), errors: Map::empty(), ..old(self).view() }),
            run.failed_view() == old(self).view().failed,
            run.retry_view() == positions_named(
                old(self).view().servers,
                name_set(old(self).view().failed),
                old(self).view().servers.len(),
            ),
            run.next_view() == 0,
            run.retried_view() == Seq::<usize>::empty(),
    {
        let ghost v = self.view();
        let mut failed: Vec<String> = Vec::new();
        std::mem::swap(&mut failed, &mut self.failed_servers);
        self.errors = StrMap::new();
        let mut retry: Vec<usize> = Vec::new();
        let mut i: usize = 0;
        while i < self.server_names.len()
            invariant
                v.servers == lines_view(self.server_names@),
                v.failed == lines_view(failed@),
                i <= self.server_names@.len(),
                retry@ == positions_named(v.servers, name_set(v.failed), i as nat),
            decreases self.server_names@.len() - i,
        {
            let name = self.server_names[i].as_str();
            let found = names_contain(&failed, name);
            assert(found == name_set(v.failed).contains(v.servers[i as int]));
            if found {
                retry.push(i);
            }
            i = i + 1;
        }
        proof {
            lemma_positions_named_below(v.servers, name_set(v.failed), v.servers.len());
        }
        let run = ReconnectRun { failed, retry, next: 0, retried: Vec::new() };
        assert(self.view().failed =~= Seq::<Seq<char>>::empty());
        assert(self.view().errors =~= Map::<Seq<char>, Seq<char>>::empty());
        run
    }

    /// The next server a retry pass connects, if any is left.
    pub fn pending_retry(&self, run: &ReconnectRun) -> (res: Option<usize>)
        ensures
            res == (if run.next_view() < run.retry_view().len() {
                Some(run.retry_view()[run.next_view() as int])
            } else {
                None::<usize>
            }),
    {
        if run.next < run.retry.len() {
            Some(run.retry[run.next])
        } else {
            None
        }
    }

    /// Takes the outcome of retrying the pass's next server into account: a
    /// server that connects is kept; in strict mode a failure ends the pass
    /// with its error.
    pub fn reconnect_step(&mut self, run: &mut ReconnectRun, outcome: Result<(), AgentsError>) -> (res: Result<(), AgentsError>)
        requires
            old(self).wf(),
            old(self).fits_retry(&*old(run)),
            old(run).next_view() < old(run).retry_view().len(),
        ensures
            final(self).wf(),
            final(self).fits_retry(&*final(run)),
            final(self).view() == after_connection(
                old(self).view(),
                old(self).view().servers[old(run).retry_view()[old(run).next_view() as int] as int],
                outcome,
            ),
            match connection_report(old(self).view().strict, outcome) {
                Ok(connected) => {
                    &&& res is Ok
                    &&& final(run).next_view() == old(run).next_view() + 1
                    &&& final(run).retried_view() == (if connected {
                        old(run).retried_view().push(old(run).retry_view()[old(run).next_view() as int])
                    } else {
                        old(run).retried_view()
                    })
                    &&& final(run).retry_view() == old(run).retry_view()
                    &&& final(run).failed_view() == old(run).failed_view()
                },
                Err(e) => res == Err::<(), AgentsError>(e),
            },
    {
        let index = run.retry[run.next];
        let n = self.server_names.len();
        assert(n == self.view().servers.len());
        assert(run.retry@[run.next as int] == index);
        match self.connect_server(index, outcome) {
            Ok(connected) => {
                let ghost before = run.retried@;
                if connected {
                    run.retried.push(index);
                }
                assert forall|i: int| 0 <= i < run.retried@.len() implies #[trigger] run.retried@[i] < n by {
                    if i < before.len() {
                        assert(run.retried@[i] == before[i]);
                        assert(old(run).retried_view()[i] < old(self).view().servers.len());
                    } else {
                        assert(run.retried@[i] == index);
                        assert(old(run).retry_view()[old(run).next_view() as int] < old(self).view().servers.len());
                    }
                }
                let len = run.retry.len();
                assert(run.next < len);
                run.next = run.next + 1;
                Ok(())
            },
            Err(error) => Err(error),
        }
    }

    /// Ends a retry pass that went through every failed server: the servers
    /// in use are the earlier ones that had not failed, then the retried ones
    /// that connected.
    pub fn finish_reconnect(&mut self, run: ReconnectRun)
        requires
            old(self).wf(),
            old(self).fits_retry(&run),
            run.next_view() == run.retry_view().len(),
        ensures
            final(self).wf(),
            final(self).view() == (ManagerView {
                active: positions_not_named(
                    old(self).view().servers,
                    old(self).view().active,
                    name_set(run.failed_view()),
                ) + run.retried_view(),
                ..old(self).view()
            }),
    {
        let ghost v = self.view();
        let ghost names = name_set(run.failed_view());
        let mut kept: Vec<usize> = Vec::new();
        let mut i: usize = 0;
        while i < self.active_servers.len()
            invariant
                v == self.view(),
                self.wf(),
                names == name_set(lines_view(run.failed@)),
                i <= self.active_servers@.len(),
                kept@ == positions_not_named(v.servers, v.active.subrange(0, i as int), names),
            decreases self.active_servers@.len() - i,
        {
            let at = self.active_servers[i];
            assert(v.active[i as int] == at);
            let name = self.server_names[at].as_str();
            let found = names_contain(&run.failed, name);
            assert(found == names.contains(v.servers[at as int]));
            assert(v.active.subrange(0, i + 1).drop_last() =~= v.active.subrange(0, i as int));
            if !found {
                kept.push(at);
            }
            i = i + 1;
        }
        assert(v.active.subrange(0, v.active.len() as int) =~= v.active);
        proof {
            lemma_positions_not_named_from(v.servers, v.active, names, v.servers.len());
        }
        let mut retried = run.retried;
        kept.append(&mut retried);
        self.active_servers = kept;
    }
}

} // verus!
