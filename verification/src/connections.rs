//! Saved SSH connections: the store, its ordering rules (drag-and-drop
//! reorder with group moves) and edits that keep a connection in place.
use vstd::prelude::*;

use crate::error::AppError;
use crate::quick_commands::{copy_opt_string, now_rfc3339};
use crate::text::{opt_view, str_eq, trim_string};

verus! {

/// A saved SSH connection configuration.
#[derive(Debug, Clone)]
pub struct SavedConnection {
    pub id: String,
    pub name: String,
    pub host: String,
    pub port: u16,
    pub username: String,
    pub auth_method: String,
    pub key_path: Option<String>,
    pub group: Option<String>,
    /// Time of the last successful connection, as RFC 3339 text.
    pub last_connected: Option<String>,
    /// Whether ProxyJump is enabled.
    pub use_jump: bool,
    pub jump_host: Option<String>,
    pub jump_port: Option<u16>,
    pub jump_username: Option<String>,
    /// `withTarget` | `Password` | `PrivateKey`
    pub jump_auth_method: Option<String>,
    pub jump_key_path: Option<String>,
}

/// One entry of a requested order: a connection id and its target group
/// (`None`: ungrouped).
#[derive(Debug, Clone)]
pub struct ConnectionOrderEntry {
    pub id: String,
    pub group: Option<String>,
}

/// Store of saved connections; the order is the display order.
#[derive(Debug, Clone)]
pub struct ConnectionStore {
    pub connections: Vec<SavedConnection>,
}

/// Index of the first connection with id `id`, or -1.
pub open spec fn find_connection(cs: Seq<SavedConnection>, id: Seq<char>) -> int
    decreases cs.len(),
{
    if cs.len() == 0 {
        -1
    } else if cs[0].id@ == id {
        0
    } else {
        let r = find_connection(cs.skip(1), id);
        if r < 0 {
            -1
        } else {
            r + 1
        }
    }
}

proof fn lemma_find_connection(cs: Seq<SavedConnection>, id: Seq<char>, p: int)
    requires
        0 <= p <= cs.len(),
        forall|j: int| 0 <= j < p ==> (#[trigger] cs[j]).id@ != id,
        p < cs.len() ==> cs[p].id@ == id,
    ensures
        find_connection(cs, id) == if p == cs.len() {
            -1
        } else {
            p
        },
    decreases p,
{
    if p > 0 {
        let t = cs.skip(1);
        assert forall|j: int| 0 <= j < p - 1 implies (#[trigger] t[j]).id@ != id by {
            assert(t[j] == cs[j + 1]);
        }
        if p < cs.len() {
            assert(t[p - 1] == cs[p]);
        }
        lemma_find_connection(t, id, p - 1);
    }
}

proof fn lemma_find_connection_found(cs: Seq<SavedConnection>, id: Seq<char>, j: int)
    requires
        0 <= j < cs.len(),
        cs[j].id@ == id,
    ensures
        0 <= find_connection(cs, id) <= j,
    decreases j,
{
    if cs[0].id@ != id {
        let t = cs.skip(1);
        assert(t[j - 1] == cs[j]);
        lemma_find_connection_found(t, id, j - 1);
    }
}

/// The connections whose id is not `id`, in order.
pub open spec fn without_connection(cs: Seq<SavedConnection>, id: Seq<char>) -> Seq<
    SavedConnection,
>
    decreases cs.len(),
{
    if cs.len() == 0 {
        Seq::empty()
    } else {
        let prev = without_connection(cs.drop_last(), id);
        if cs.last().id@ != id {
            prev.push(cs.last())
        } else {
            prev
        }
    }
}

/// State of a reorder after some entries: the connections placed so far,
/// those not yet placed (in their original order), and the number of
/// entries that named no remaining connection.
pub struct OrderState {
    pub placed: Seq<SavedConnection>,
    pub remaining: Seq<SavedConnection>,
    pub ignored: nat,
}

/// The reorder after the entries `order` (processed in order): an entry
/// takes the first remaining connection with its id, sets its group and
/// places it next; an entry with no such connection is ignored.
pub open spec fn order_state(conns: Seq<SavedConnection>, order: Seq<(String, Option<String>)>) -> OrderState
    decreases order.len(),
{
    if order.len() == 0 {
        OrderState { placed: Seq::empty(), remaining: conns, ignored: 0 }
    } else {
        let st = order_state(conns, order.drop_last());
        let e = order.last();
        let i = find_connection(st.remaining, e.0@);
        if i < 0 {
            OrderState { ignored: st.ignored + 1, ..st }
        } else {
            OrderState {
                placed: st.placed.push(SavedConnection { group: e.1, ..st.remaining[i] }),
                remaining: st.remaining.remove(i),
                ignored: st.ignored,
            }
        }
    }
}

/// A connection with its group erased (what a reorder may not change).
pub open spec fn without_group(c: SavedConnection) -> SavedConnection {
    SavedConnection { group: None, ..c }
}

/// The connections with their groups erased.
pub open spec fn ungrouped(cs: Seq<SavedConnection>) -> Seq<SavedConnection> {
    cs.map_values(|c: SavedConnection| without_group(c))
}

/// A copy of `c` with the same field values.
fn copy_connection(c: &SavedConnection) -> (r: SavedConnection)
    ensures
        r == *c,
{
    SavedConnection {
        id: c.id.clone(),
        name: c.name.clone(),
        host: c.host.clone(),
        port: c.port,
        username: c.username.clone(),
        auth_method: c.auth_method.clone(),
        key_path: copy_opt_string(&c.key_path),
        group: copy_opt_string(&c.group),
        last_connected: copy_opt_string(&c.last_connected),
        use_jump: c.use_jump,
        jump_host: copy_opt_string(&c.jump_host),
        jump_port: c.jump_port,
        jump_username: copy_opt_string(&c.jump_username),
        jump_auth_method: copy_opt_string(&c.jump_auth_method),
        jump_key_path: copy_opt_string(&c.jump_key_path),
    }
}

/// Index of the first connection in `cs` with id `id`, if any.
fn position_of(cs: &Vec<SavedConnection>, id: &str) -> (r: Option<usize>)
    ensures
        match r {
            Some(i) => i == find_connection(cs@, id@) && i < cs.len(),
            None => find_connection(cs@, id@) < 0,
        },
{
    let mut i: usize = 0;
    while i < cs.len() && !str_eq(cs[i].id.as_str(), id)
        invariant
            i <= cs.len(),
            forall|q: int| 0 <= q < i ==> (#[trigger] cs@[q]).id@ != id@,
        decreases cs.len() - i,
    {
        i = i + 1;
    }
    proof {
        lemma_find_connection(cs@, id@, i as int);
    }
    if i == cs.len() {
        None
    } else {
        Some(i)
    }
}

/// The group of an order entry: trimmed, and `None` when blank.
pub open spec fn entry_group(g: Option<Seq<char>>) -> Option<Seq<char>> {
    match g {
        Some(s) => if crate::text::trim(s).len() > 0 {
            Some(crate::text::trim(s))
        } else {
            None
        },
        None => None,
    }
}

/// Turns requested order entries into the pairs `apply_order` takes: the
/// group is trimmed and a blank group means ungrouped.
pub fn normalize_order_entries(order: Vec<ConnectionOrderEntry>) -> (r: Vec<(String, Option<String>)>)
    ensures
        r.len() == order.len(),
        forall|i: int|
            0 <= i < r.len() ==> (#[trigger] r@[i]).0 == order@[i].id && opt_view(r@[i].1)
                == entry_group(opt_view(order@[i].group)),
{
    let mut r: Vec<(String, Option<String>)> = Vec::new();
    let mut i: usize = 0;
    while i < order.len()
        invariant
            i <= order.len(),
            r.len() == i,
            forall|j: int|
                0 <= j < i ==> (#[trigger] r@[j]).0 == order@[j].id && opt_view(r@[j].1)
                    == entry_group(opt_view(order@[j].group)),
        decreases order.len() - i,
    {
        let e = &order[i];
        let group = match &e.group {
            Some(g) => {
                let t = trim_string(g.as_str());
                if t.as_str().is_empty() {
                    None
                } else {
                    Some(t)
                }
            },
            None => None,
        };
        r.push((e.id.clone(), group));
        i = i + 1;
    }
    r
}

impl ConnectionStore {
    /// An empty store.
    pub fn new() -> (r: Self)
        ensures
            r.connections@.len() == 0,
    {
        ConnectionStore { connections: Vec::new() }
    }

    /// Appends a connection.
    pub fn add(&mut self, connection: SavedConnection)
        ensures
            final(self).connections@ == old(self).connections@.push(connection),
    {
        self.connections.push(connection);
    }

    /// Writes back a connection in the slot of the first one with its id,
    /// or appends it when there is none: editing never moves a connection.
    pub fn replace_keeping_order(&mut self, connection: SavedConnection)
        ensures
            ({
                let i = find_connection(old(self).connections@, connection.id@);
                if i < 0 {
                    final(self).connections@ == old(self).connections@.push(connection)
                } else {
                    final(self).connections@ == old(self).connections@.update(i, connection)
                }
            }),
    {
        match position_of(&self.connections, connection.id.as_str()) {
            Some(i) => {
                self.connections.set(i, connection);
            },
            None => {
                self.connections.push(connection);
            },
        }
    }

    /// Reorders the connections as `order` asks and writes each placed
    /// connection's target group. Connections the request does not name
    /// keep their relative order after the placed ones; entries naming no
    /// connection are ignored. Returns (placed, appended, ignored).
    pub fn apply_order(&mut self, order: &[(String, Option<String>)]) -> (r: (usize, usize, usize))
        ensures
            ({
                let st = order_state(old(self).connections@, order@);
                &&& final(self).connections@ == st.placed + st.remaining
                &&& r == (st.placed.len() as usize, st.remaining.len() as usize, st.ignored as usize)
            }),
    {
        let ghost conns = self.connections@;
        let mut remaining: Vec<SavedConnection> = Vec::new();
        std::mem::swap(&mut remaining, &mut self.connections);
        let mut ordered: Vec<SavedConnection> = Vec::new();
        let mut ignored: usize = 0;
        let mut k: usize = 0;
        proof {
            lemma_order_state_sizes(conns, order@.take(0));
        }
        assert(order@.take(0) =~= Seq::<(String, Option<String>)>::empty());
        while k < order.len()
            invariant
                k <= order.len(),
                ({
                    let st = order_state(conns, order@.take(k as int));
                    &&& ordered@ == st.placed
                    &&& remaining@ == st.remaining
                    &&& ignored == st.ignored
                    &&& st.placed.len() + st.remaining.len() == conns.len()
                    &&& st.ignored <= k
                }),
            decreases order.len() - k,
        {
            let e = &order[k];
            assert(order@.take(k + 1).drop_last() =~= order@.take(k as int));
            assert(order@.take(k + 1).last() == *e);
            match position_of(&remaining, e.0.as_str()) {
                Some(idx) => {
                    let mut conn = remaining.remove(idx);
                    conn.group = copy_opt_string(&e.1);
                    ordered.push(conn);
                },
                None => {
                    ignored = ignored + 1;
                },
            }
            k = k + 1;
        }
        assert(order@.take(order.len() as int) =~= order@);
        let placed = ordered.len();
        let appended = remaining.len();
        ordered.append(&mut remaining);
        self.connections = ordered;
        (placed, appended, ignored)
    }

    /// Removes every connection with id `id`; true when one was removed.
    pub fn remove(&mut self, id: &str) -> (r: bool)
        ensures
            final(self).connections@ == without_connection(old(self).connections@, id@),
            r == (find_connection(old(self).connections@, id@) >= 0),
    {
        let ghost old_cs = self.connections@;
        let mut kept: Vec<SavedConnection> = Vec::new();
        let mut found = false;
        let mut i: usize = 0;
        assert(old_cs.take(0) =~= Seq::<SavedConnection>::empty());
        while i < self.connections.len()
            invariant
                i <= self.connections.len(),
                self.connections@ == old_cs,
                kept@ == without_connection(old_cs.take(i as int), id@),
                found == exists|j: int| 0 <= j < i && (#[trigger] old_cs[j]).id@ == id@,
            decreases self.connections.len() - i,
        {
            let c = &self.connections[i];
            assert(old_cs.take(i + 1).drop_last() =~= old_cs.take(i as int));
            assert(old_cs.take(i + 1).last() == *c);
            if str_eq(c.id.as_str(), id) {
                found = true;
            } else {
                kept.push(copy_connection(c));
            }
            i = i + 1;
        }
        assert(old_cs.take(old_cs.len() as int) =~= old_cs);
        proof {
            if found {
                let j = choose|j: int| 0 <= j < old_cs.len() && (#[trigger] old_cs[j]).id@ == id@;
                lemma_find_connection_found(old_cs, id@, j);
            } else {
                lemma_find_connection(old_cs, id@, old_cs.len() as int);
            }
        }
        self.connections = kept;
        found
    }

    /// All connections, in display order.
    pub fn get_all(&self) -> (r: &[SavedConnection])
        ensures
            r@ == self.connections@,
    {
        self.connections.as_slice()
    }

    /// The first connection with id `id`.
    pub fn get_by_id(&self, id: &str) -> (r: Option<&SavedConnection>)
        ensures
            ({
                let i = find_connection(self.connections@, id@);
                match r {
                    Some(c) => i >= 0 && *c == self.connections@[i],
                    None => i < 0,
                }
            }),
    {
        match position_of(&self.connections, id) {
            Some(i) => Some(&self.connections[i]),
            None => None,
        }
    }

    /// Stamps the first connection with id `id` with the time `now`;
    /// nothing changes when there is none.
    pub fn mark_connected_at(&mut self, id: &str, now: String)
        ensures
            ({
                let i = find_connection(old(self).connections@, id@);
                if i < 0 {
                    final(self).connections@ == old(self).connections@
                } else {
                    final(self).connections@ == old(self).connections@.update(
                        i,
                        (SavedConnection { last_connected: Some(now), ..old(self).connections@[i] }),
                    )
                }
            }),
    {
        match position_of(&self.connections, id) {
            Some(i) => {
                let mut c = copy_connection(&self.connections[i]);
                c.last_connected = Some(now);
                self.connections.set(i, c);
            },
            None => {},
        }
    }

    /// Stamps the first connection with id `id` with the current time.
    pub fn mark_connected(&mut self, id: &str)
        ensures
            ({
                let i = find_connection(old(self).connections@, id@);
                if i < 0 {
                    final(self).connections@ == old(self).connections@
                } else {
                    let f = final(self).connections@;
                    let o = old(self).connections@;
                    &&& f.len() == o.len()
                    &&& f[i].last_connected is Some
                    &&& f[i] == (SavedConnection { last_connected: f[i].last_connected, ..o[i] })
                    &&& forall|j: int| 0 <= j < o.len() && j != i ==> f[j] == o[j]
                }
            }),
    {
        proof {
            lemma_find_connection_range(self.connections@, id@);
        }
        let now = now_rfc3339();
        self.mark_connected_at(id, now);
    }
}

/// Keychain account of a jump host's password.
pub fn jump_password_account(connection_id: &str) -> (r: String)
    ensures
        r@ == "jump:"@ + connection_id@,
{
    let mut r = String::from_str("jump:");
    r.append(connection_id);
    r
}

/// Keychain account of a jump host's private-key passphrase.
pub fn jump_passphrase_account(connection_id: &str) -> (r: String)
    ensures
        r@ == "jump:pk:"@ + connection_id@,
{
    let mut r = String::from_str("jump:pk:");
    r.append(connection_id);
    r
}

/// Every keychain account a saved connection may have stored a secret
/// under: its password, its key passphrase, and the jump host's password
/// and passphrase. Deleting a connection purges all of them.
pub fn credential_accounts(connection_id: &str) -> (r: Vec<String>)
    ensures
        r@.len() == 4,
        r@[0]@ == connection_id@,
        r@[1]@ == "pk:"@ + connection_id@,
        r@[2]@ == "jump:"@ + connection_id@,
        r@[3]@ == "jump:pk:"@ + connection_id@,
{
    let mut r: Vec<String> = Vec::new();
    r.push(String::from_str(connection_id));
    let mut pk = String::from_str("pk:");
    pk.append(connection_id);
    r.push(pk);
    r.push(jump_password_account(connection_id));
    r.push(jump_passphrase_account(connection_id));
    r
}

/// How the jump host authenticates.
#[derive(Debug, Clone, PartialEq, Eq)]
pub enum JumpAuthPlan {
    /// The same credentials as the target host.
    WithTarget,
    /// A password stored in the keychain under `account`.
    Password { account: String },
    /// A private key, with its passphrase (if any) stored under
    /// `passphrase_account`.
    PrivateKey { key_path: String, passphrase_account: String },
}

/// What is needed to connect through a jump host.
#[derive(Debug, Clone)]
pub struct JumpPlan {
    pub host: String,
    pub port: u16,
    pub username: String,
    pub auth: JumpAuthPlan,
}

/// A present, non-empty text.
pub open spec fn filled(o: Option<Seq<char>>) -> bool {
    o matches Some(s) && s.len() > 0
}

/// The jump-host settings of a saved connection, checked: none when the
/// jump host is off; otherwise host and user name must be filled in, the
/// port defaults to 22, and the method (default `withTarget`) must be
/// `withTarget`, `Password` or `PrivateKey` (which needs a key path).
pub fn plan_jump(saved: &SavedConnection, connection_id: &str) -> (r: Result<Option<JumpPlan>, AppError>)
    ensures
        !saved.use_jump ==> r matches Ok(None),
        saved.use_jump && !filled(opt_view(saved.jump_host)) ==> (r matches Err(AppError::Config(m))
            && m@ == "已启用跳板机但未配置主机"@),
        saved.use_jump && filled(opt_view(saved.jump_host)) && !filled(opt_view(saved.jump_username))
            ==> (r matches Err(AppError::Config(m)) && m@ == "已启用跳板机但未配置用户名"@),
        saved.use_jump && filled(opt_view(saved.jump_host)) && filled(opt_view(saved.jump_username))
            ==> ({
            let method = match saved.jump_auth_method {
                Some(m) => m@,
                None => "withTarget"@,
            };
            if method == "withTarget"@ || method == "Password"@ || (method == "PrivateKey"@
                && filled(opt_view(saved.jump_key_path))) {
                r matches Ok(Some(plan)) && {
                    &&& plan.host == saved.jump_host.unwrap()
                    &&& plan.port == match saved.jump_port {
                        Some(p) => p,
                        None => 22,
                    }
                    &&& plan.username == saved.jump_username.unwrap()
                    &&& method == "withTarget"@ ==> plan.auth == JumpAuthPlan::WithTarget
                    &&& method == "Password"@ ==> (plan.auth matches JumpAuthPlan::Password {
                        account,
                    } && account@ == "jump:"@ + connection_id@)
                    &&& method == "PrivateKey"@ ==> (plan.auth matches JumpAuthPlan::PrivateKey {
                        key_path,
                        passphrase_account,
                    } && key_path == saved.jump_key_path.unwrap() && passphrase_account@
                        == "jump:pk:"@ + connection_id@)
                }
            } else if method == "PrivateKey"@ {
                r matches Err(AppError::Config(m)) && m@ == "未配置跳板机私钥路径"@
            } else {
                r matches Err(AppError::Config(m)) && m@ == "不支持的跳板机认证方式: "@ + method
            }
        }),
{
    proof {
        reveal_strlit("withTarget");
        reveal_strlit("Password");
        reveal_strlit("PrivateKey");
        assert("withTarget"@[0] == 'w' && "PrivateKey"@[0] == 'P');
        assert("Password"@.len() == 8 && "PrivateKey"@.len() == 10 && "withTarget"@.len() == 10);
    }
    if !saved.use_jump {
        return Ok(None);
    }
    let host = match &saved.jump_host {
        Some(h) => {
            if h.as_str().is_empty() {
                return Err(AppError::Config(String::from_str("已启用跳板机但未配置主机")));
            }
            h.clone()
        },
        None => {
            return Err(AppError::Config(String::from_str("已启用跳板机但未配置主机")));
        },
    };
    let port: u16 = match saved.jump_port {
        Some(p) => p,
        None => 22,
    };
    let username = match &saved.jump_username {
        Some(u) => {
            if u.as_str().is_empty() {
                return Err(AppError::Config(String::from_str("已启用跳板机但未配置用户名")));
            }
            u.clone()
        },
        None => {
            return Err(AppError::Config(String::from_str("已启用跳板机但未配置用户名")));
        },
    };
    let method: &str = match &saved.jump_auth_method {
        Some(m) => m.as_str(),
        None => "withTarget",
    };
    let auth = if str_eq(method, "withTarget") {
        JumpAuthPlan::WithTarget
    } else if str_eq(method, "Password") {
        JumpAuthPlan::Password { account: jump_password_account(connection_id) }
    } else if str_eq(method, "PrivateKey") {
        let key_path = match &saved.jump_key_path {
            Some(k) => {
                if k.as_str().is_empty() {
                    return Err(AppError::Config(String::from_str("未配置跳板机私钥路径")));
                }
                k.clone()
            },
            None => {
                return Err(AppError::Config(String::from_str("未配置跳板机私钥路径")));
            },
        };
        JumpAuthPlan::PrivateKey {
            key_path,
            passphrase_account: jump_passphrase_account(connection_id),
        }
    } else {
        let mut m = String::from_str("不支持的跳板机认证方式: ");
        m.append(method);
        return Err(AppError::Config(m));
    };
    Ok(Some(JumpPlan { host, port, username, auth }))
}

proof fn lemma_order_state_sizes(conns: Seq<SavedConnection>, order: Seq<(String, Option<String>)>)
    ensures
        order_state(conns, order).placed.len() + order_state(conns, order).remaining.len()
            == conns.len(),
        order_state(conns, order).ignored <= order.len(),
    decreases order.len(),
{
    if order.len() > 0 {
        lemma_order_state_sizes(conns, order.drop_last());
        lemma_find_connection_range(
            order_state(conns, order.drop_last()).remaining,
            order.last().0@,
        );
    }
}

/// Saving a connection and then looking up its id gives it back: after
/// [`ConnectionStore::replace_keeping_order`] the first connection with
/// that id is the one saved.
pub proof fn lemma_saved_connection_is_found(cs: Seq<SavedConnection>, c: SavedConnection)
    ensures
        ({
            let i = find_connection(cs, c.id@);
            let after = if i < 0 {
                cs.push(c)
            } else {
                cs.update(i, c)
            };
            let j = find_connection(after, c.id@);
            j >= 0 && after[j] == c
        }),
{
    let id = c.id@;
    let i = find_connection(cs, id);
    lemma_find_connection_range(cs, id);
    if i < 0 {
        assert forall|j: int| 0 <= j < cs.len() implies (#[trigger] cs[j]).id@ != id by {
            if cs[j].id@ == id {
                lemma_find_connection_found(cs, id, j);
            }
        }
        let after = cs.push(c);
        assert forall|j: int| 0 <= j < cs.len() implies (#[trigger] after[j]).id@ != id by {
            assert(after[j] == cs[j]);
        }
        lemma_find_connection(after, id, cs.len() as int);
    } else {
        assert forall|j: int| 0 <= j < i implies (#[trigger] cs[j]).id@ != id by {
            if cs[j].id@ == id {
                lemma_find_connection_found(cs, id, j);
            }
        }
        let after = cs.update(i, c);
        assert forall|j: int| 0 <= j < i implies (#[trigger] after[j]).id@ != id by {
            assert(after[j] == cs[j]);
        }
        lemma_find_connection(after, id, i);
    }
}

/// After [`ConnectionStore::remove`] no connection has the removed id, so
/// looking it up finds nothing.
pub proof fn lemma_removed_connection_is_gone(cs: Seq<SavedConnection>, id: Seq<char>)
    ensures
        forall|k: int|
            0 <= k < without_connection(cs, id).len() ==> (#[trigger] without_connection(cs, id)[k]).id@
                != id,
        find_connection(without_connection(cs, id), id) < 0,
    decreases cs.len(),
{
    let w = without_connection(cs, id);
    if cs.len() > 0 {
        lemma_removed_connection_is_gone(cs.drop_last(), id);
        let prev = without_connection(cs.drop_last(), id);
        assert forall|k: int| 0 <= k < w.len() implies (#[trigger] w[k]).id@ != id by {
            if k < prev.len() {
                assert(w[k] == prev[k]);
            }
        }
    }
    lemma_find_connection(w, id, w.len() as int);
}

/// A reorder is a rearrangement: it keeps the number of connections,
/// every placed connection is counted once and every entry either placed a
/// connection or was ignored, and apart from groups the connections are
/// the same ones, each as often as before.
pub proof fn lemma_apply_order_rearranges(
    conns: Seq<SavedConnection>,
    order: Seq<(String, Option<String>)>,
)
    ensures
        ({
            let st = order_state(conns, order);
            &&& (st.placed + st.remaining).len() == conns.len()
            &&& st.placed.len() + st.ignored == order.len()
            &&& ungrouped(st.placed + st.remaining).to_multiset() == ungrouped(conns).to_multiset()
        }),
    decreases order.len(),
{
    broadcast use vstd::seq_lib::group_to_multiset_ensures;

    let st = order_state(conns, order);
    if order.len() == 0 {
        assert(st.placed + st.remaining =~= conns);
    } else {
        lemma_apply_order_rearranges(conns, order.drop_last());
        let prev = order_state(conns, order.drop_last());
        let e = order.last();
        let i = find_connection(prev.remaining, e.0@);
        if i >= 0 {
            lemma_find_connection_range(prev.remaining, e.0@);
            let moved = SavedConnection { group: e.1, ..prev.remaining[i] };
            assert(without_group(moved) == without_group(prev.remaining[i]));
            let before = prev.placed + prev.remaining;
            let after = st.placed + st.remaining;
            // `after` is `before` with element `prev.placed.len() + i` moved
            // to position `prev.placed.len()` and its group changed
            let a = ungrouped(after);
            let b = ungrouped(before);
            let p = prev.placed.len() as int;
            assert(ungrouped(prev.placed.push(moved)) =~= ungrouped(prev.placed).push(
                without_group(moved),
            ));
            assert(a =~= ungrouped(prev.placed).push(without_group(moved)) + ungrouped(
                prev.remaining.remove(i),
            ));
            assert(b =~= ungrouped(prev.placed) + ungrouped(prev.remaining));
            assert(ungrouped(prev.remaining.remove(i)) =~= ungrouped(prev.remaining).remove(i));
            vstd::seq_lib::lemma_multiset_commutative(
                ungrouped(prev.placed).push(without_group(moved)),
                ungrouped(prev.remaining.remove(i)),
            );
            vstd::seq_lib::lemma_multiset_commutative(
                ungrouped(prev.placed),
                ungrouped(prev.remaining),
            );
            assert(ungrouped(prev.remaining)[i] == without_group(moved));
            assert(a.to_multiset() =~= b.to_multiset());
        }
    }
}

proof fn lemma_find_connection_range(cs: Seq<SavedConnection>, id: Seq<char>)
    ensures
        find_connection(cs, id) < cs.len(),
        find_connection(cs, id) >= 0 ==> cs[find_connection(cs, id)].id@ == id,
    decreases cs.len(),
{
    if cs.len() > 0 && cs[0].id@ != id {
        lemma_find_connection_range(cs.skip(1), id);
        let r = find_connection(cs.skip(1), id);
        if r >= 0 {
            assert(cs.skip(1)[r] == cs[r + 1]);
        }
    }
}

} // verus!
