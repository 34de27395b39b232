//! Quick commands: named command sequences shown in the terminal, either
//! for every session or for one saved connection, with their validation
//! and normalization rules.
use vstd::prelude::*;

use crate::error::AppError;
use crate::text::{opt_view, str_eq, trim, trim_string, views};

verus! {

/// Where a quick command is shown.
#[derive(Debug, Clone, Copy, PartialEq, Eq, Structural)]
pub enum QuickCommandScope {
    Global,
    Session,
}

/// A stored quick command.
#[derive(Debug, Clone)]
pub struct QuickCommand {
    pub id: String,
    pub scope: QuickCommandScope,
    /// Saved-connection id of a session command.
    pub session_key: Option<String>,
    pub name: String,
    pub commands: Vec<String>,
    pub interval_ms: u64,
    /// Insert the text only (no final Enter) instead of running it.
    pub insert_only: bool,
    pub created_at: String,
    pub updated_at: String,
}

/// The value of a [`QuickCommand`].
pub struct QuickCommandView {
    pub id: Seq<char>,
    pub scope: QuickCommandScope,
    pub session_key: Option<Seq<char>>,
    pub name: Seq<char>,
    pub commands: Seq<Seq<char>>,
    pub interval_ms: u64,
    pub insert_only: bool,
    pub created_at: Seq<char>,
    pub updated_at: Seq<char>,
}

impl View for QuickCommand {
    type V = QuickCommandView;

    open spec fn view(&self) -> QuickCommandView {
        QuickCommandView {
            id: self.id@,
            scope: self.scope,
            session_key: opt_view(self.session_key),
            name: self.name@,
            commands: views(self.commands@),
            interval_ms: self.interval_ms,
            insert_only: self.insert_only,
            created_at: self.created_at@,
            updated_at: self.updated_at@,
        }
    }
}

/// The values of a sequence of quick commands.
pub open spec fn command_views(s: Seq<QuickCommand>) -> Seq<QuickCommandView> {
    s.map_values(|c: QuickCommand| c@)
}

/// A quick command as submitted for creation.
#[derive(Debug, Clone)]
pub struct QuickCommandInput {
    pub scope: QuickCommandScope,
    pub session_key: Option<String>,
    pub name: String,
    pub commands: Vec<String>,
    pub interval_ms: u64,
    pub insert_only: bool,
}

/// A partial update; `None` leaves a field as it is (for `session_key`,
/// `Some(None)` clears it).
#[derive(Debug, Clone)]
pub struct QuickCommandPatch {
    pub scope: Option<QuickCommandScope>,
    pub session_key: Option<Option<String>>,
    pub name: Option<String>,
    pub commands: Option<Vec<String>>,
    pub interval_ms: Option<u64>,
    pub insert_only: Option<bool>,
}

/// All quick commands, in creation order.
#[derive(Debug, Clone)]
pub struct QuickCommandStore {
    pub commands: Vec<QuickCommand>,
}

/// The commands trimmed, empty ones dropped, order kept.
pub open spec fn normalized_commands(cs: Seq<Seq<char>>) -> Seq<Seq<char>>
    decreases cs.len(),
{
    if cs.len() == 0 {
        Seq::empty()
    } else {
        let prev = normalized_commands(cs.drop_last());
        let t = trim(cs.last());
        if t.len() > 0 {
            prev.push(t)
        } else {
            prev
        }
    }
}

/// The session key trimmed; empty or absent gives none.
pub open spec fn normalized_key(k: Option<Seq<char>>) -> Option<Seq<char>> {
    match k {
        Some(s) => if trim(s).len() > 0 {
            Some(trim(s))
        } else {
            None
        },
        None => None,
    }
}

/// The message of the first rule an input breaks, if any.
pub open spec fn input_error(input: QuickCommandInput) -> Option<Seq<char>> {
    if trim(input.name@).len() == 0 {
        Some("快捷指令名称不能为空"@)
    } else if normalized_commands(views(input.commands@)).len() == 0 {
        Some("快捷指令至少需要一条命令"@)
    } else if input.scope == QuickCommandScope::Session && normalized_key(opt_view(input.session_key))
        is None {
        Some("会话快捷指令缺少连接配置 ID"@)
    } else {
        None
    }
}

/// The message of the first rule a stored command breaks, if any.
pub open spec fn command_error(c: QuickCommandView) -> Option<Seq<char>> {
    if trim(c.name).len() == 0 {
        Some("快捷指令名称不能为空"@)
    } else if c.commands.len() == 0 {
        Some("快捷指令至少需要一条命令"@)
    } else if c.scope == QuickCommandScope::Session && trim(
        match c.session_key {
            Some(k) => k,
            None => Seq::<char>::empty(),
        },
    ).len() == 0 {
        Some("会话快捷指令缺少连接配置 ID"@)
    } else {
        None
    }
}

/// Whether `c` is shown for the session `key` (global commands always,
/// session commands only for their own key).
pub open spec fn visible_for(c: QuickCommandView, key: Option<Seq<char>>) -> bool {
    match c.scope {
        QuickCommandScope::Global => true,
        QuickCommandScope::Session => match key {
            Some(k) => c.session_key == Some(k),
            None => false,
        },
    }
}

/// The commands shown for `key`, in store order.
pub open spec fn visible_commands(cs: Seq<QuickCommandView>, key: Option<Seq<char>>) -> Seq<
    QuickCommandView,
>
    decreases cs.len(),
{
    if cs.len() == 0 {
        Seq::empty()
    } else {
        let prev = visible_commands(cs.drop_last(), key);
        if visible_for(cs.last(), key) {
            prev.push(cs.last())
        } else {
            prev
        }
    }
}

/// The commands whose id is not `id`, in order.
pub open spec fn without_id(cs: Seq<QuickCommandView>, id: Seq<char>) -> Seq<QuickCommandView>
    decreases cs.len(),
{
    if cs.len() == 0 {
        Seq::empty()
    } else {
        let prev = without_id(cs.drop_last(), id);
        if cs.last().id != id {
            prev.push(cs.last())
        } else {
            prev
        }
    }
}

/// Index of the first command with id `id`, or -1.
pub open spec fn find_id(cs: Seq<QuickCommandView>, id: Seq<char>) -> int
    decreases cs.len(),
{
    if cs.len() == 0 {
        -1
    } else if cs[0].id == id {
        0
    } else {
        let r = find_id(cs.skip(1), id);
        if r < 0 {
            -1
        } else {
            r + 1
        }
    }
}

proof fn lemma_find_id(cs: Seq<QuickCommandView>, id: Seq<char>, p: int)
    requires
        0 <= p <= cs.len(),
        forall|j: int| 0 <= j < p ==> (#[trigger] cs[j]).id != id,
        p < cs.len() ==> cs[p].id == id,
    ensures
        find_id(cs, id) == if p == cs.len() {
            -1
        } else {
            p
        },
    decreases p,
{
    if p > 0 {
        let t = cs.skip(1);
        assert forall|j: int| 0 <= j < p - 1 implies (#[trigger] t[j]).id != id by {
            assert(t[j] == cs[j + 1]);
        }
        if p < cs.len() {
            assert(t[p - 1] == cs[p]);
        }
        lemma_find_id(t, id, p - 1);
    }
}

proof fn lemma_find_id_found(cs: Seq<QuickCommandView>, id: Seq<char>, j: int)
    requires
        0 <= j < cs.len(),
        cs[j].id == id,
    ensures
        0 <= find_id(cs, id) <= j,
        cs[find_id(cs, id)].id == id,
    decreases j,
{
    if cs[0].id != id {
        let t = cs.skip(1);
        assert(t[j - 1] == cs[j]);
        lemma_find_id_found(t, id, j - 1);
        assert(t[find_id(t, id)] == cs[find_id(t, id) + 1]);
    }
}

/// Whether `n` is `c` after the fields present in `p` were written
/// (session key normalized, name trimmed, commands normalized) and a
/// global scope cleared the session key; id and creation time are kept.
pub open spec fn patched(c: QuickCommandView, p: QuickCommandPatch, n: QuickCommandView) -> bool {
    let scope = match p.scope {
        Some(s) => s,
        None => c.scope,
    };
    &&& n.id == c.id
    &&& n.scope == scope
    &&& n.session_key == if scope == QuickCommandScope::Global {
        None
    } else {
        match p.session_key {
            Some(k) => normalized_key(opt_view(k)),
            None => c.session_key,
        }
    }
    &&& n.name == match p.name {
        Some(nm) => trim(nm@),
        None => c.name,
    }
    &&& n.commands == match p.commands {
        Some(cs) => normalized_commands(views(cs@)),
        None => c.commands,
    }
    &&& n.interval_ms == match p.interval_ms {
        Some(v) => v,
        None => c.interval_ms,
    }
    &&& n.insert_only == match p.insert_only {
        Some(v) => v,
        None => c.insert_only,
    }
    &&& n.created_at == c.created_at
}

/// A copy of `c` with the same field values.
fn copy_command(c: &QuickCommand) -> (r: QuickCommand)
    ensures
        r@ == c@,
{
    QuickCommand {
        id: c.id.clone(),
        scope: c.scope,
        session_key: copy_opt_string(&c.session_key),
        name: c.name.clone(),
        commands: copy_strings(&c.commands),
        interval_ms: c.interval_ms,
        insert_only: c.insert_only,
        created_at: c.created_at.clone(),
        updated_at: c.updated_at.clone(),
    }
}

/// A copy of an optional string.
pub(crate) fn copy_opt_string(o: &Option<String>) -> (r: Option<String>)
    ensures
        r == *o,
{
    match o {
        Some(s) => Some(s.clone()),
        None => None,
    }
}

/// A copy of a list of strings.
pub(crate) fn copy_strings(v: &Vec<String>) -> (r: Vec<String>)
    ensures
        r@ == v@,
{
    let mut r: Vec<String> = Vec::new();
    let mut i: usize = 0;
    while i < v.len()
        invariant
            i <= v.len(),
            r@ == v@.take(i as int),
        decreases v.len() - i,
    {
        r.push(v[i].clone());
        assert(r@ =~= v@.take(i + 1));
        i = i + 1;
    }
    assert(v@.take(v@.len() as int) =~= v@);
    r
}

/// Trims every command and drops the empty ones, keeping the order.
pub fn normalize_commands(commands: Vec<String>) -> (r: Vec<String>)
    ensures
        views(r@) == normalized_commands(views(commands@)),
{
    let ghost cv = views(commands@);
    let mut r: Vec<String> = Vec::new();
    let mut i: usize = 0;
    assert(cv.take(0) =~= Seq::<Seq<char>>::empty());
    assert(views(r@) =~= Seq::<Seq<char>>::empty());
    while i < commands.len()
        invariant
            i <= commands.len(),
            cv == views(commands@),
            views(r@) == normalized_commands(cv.take(i as int)),
        decreases commands.len() - i,
    {
        assert(cv.take(i + 1).drop_last() =~= cv.take(i as int));
        assert(cv.take(i + 1).last() == commands@[i as int]@);
        let t = trim_string(commands[i].as_str());
        if !t.as_str().is_empty() {
            let ghost before = views(r@);
            r.push(t);
            assert(views(r@) =~= before.push(t@));
        }
        i = i + 1;
    }
    assert(cv.take(commands.len() as int) =~= cv);
    r
}

/// Trims the session key; an empty or absent key gives `None`.
pub fn normalized_session_key(session_key: Option<String>) -> (r: Option<String>)
    ensures
        opt_view(r) == normalized_key(opt_view(session_key)),
{
    match session_key {
        Some(key) => {
            let t = trim_string(key.as_str());
            if !t.as_str().is_empty() {
                Some(t)
            } else {
                None
            }
        },
        None => None,
    }
}

/// Checks a creation request: a non-blank name, at least one non-blank
/// command, and a session key for session commands.
pub fn validate_input(input: &QuickCommandInput) -> (r: Result<(), AppError>)
    ensures
        match input_error(*input) {
            Some(m) => r matches Err(AppError::Config(e)) && e@ == m,
            None => r is Ok,
        },
{
    if trim_string(input.name.as_str()).as_str().is_empty() {
        return Err(AppError::Config(String::from_str("快捷指令名称不能为空")));
    }
    let commands = normalize_commands(copy_strings(&input.commands));
    if commands.len() == 0 {
        return Err(AppError::Config(String::from_str("快捷指令至少需要一条命令")));
    }
    if input.scope == QuickCommandScope::Session && normalized_session_key(
        copy_opt_string(&input.session_key),
    ).is_none() {
        return Err(AppError::Config(String::from_str("会话快捷指令缺少连接配置 ID")));
    }
    Ok(())
}

/// Checks a stored command: a non-blank name, at least one command, and a
/// non-blank session key for session commands.
pub fn validate_command(command: &QuickCommand) -> (r: Result<(), AppError>)
    ensures
        match command_error(command@) {
            Some(m) => r matches Err(AppError::Config(e)) && e@ == m,
            None => r is Ok,
        },
{
    if trim_string(command.name.as_str()).as_str().is_empty() {
        return Err(AppError::Config(String::from_str("快捷指令名称不能为空")));
    }
    if command.commands.len() == 0 {
        return Err(AppError::Config(String::from_str("快捷指令至少需要一条命令")));
    }
    if command.scope == QuickCommandScope::Session {
        let key_blank = match &command.session_key {
            Some(k) => trim_string(k.as_str()).as_str().is_empty(),
            None => {
                proof {
                    assert(trim(Seq::<char>::empty()) =~= Seq::<char>::empty());
                }
                true
            },
        };
        if key_blank {
            return Err(AppError::Config(String::from_str("会话快捷指令缺少连接配置 ID")));
        }
    }
    Ok(())
}

/// `chrono::Utc::now().to_rfc3339()`: the current UTC time as RFC 3339
/// text. It reads the clock, so nothing is stated of the text.
#[verifier::external_body]
pub(crate) fn now_rfc3339() -> String {
    chrono::Utc::now().to_rfc3339()
}

impl View for QuickCommandStore {
    type V = Seq<QuickCommandView>;

    open spec fn view(&self) -> Seq<QuickCommandView> {
        command_views(self.commands@)
    }
}

/// The spec of a successful creation: `c` is `input` normalized, with id
/// `id`, and `after` is `before` with `c` appended.
pub open spec fn created_from(
    c: QuickCommandView,
    id: Seq<char>,
    input: QuickCommandInput,
    before: Seq<QuickCommandView>,
    after: Seq<QuickCommandView>,
) -> bool {
    &&& c.id == id
    &&& c.scope == input.scope
    &&& c.session_key == normalized_key(opt_view(input.session_key))
    &&& c.name == trim(input.name@)
    &&& c.commands == normalized_commands(views(input.commands@))
    &&& c.interval_ms == input.interval_ms
    &&& c.insert_only == input.insert_only
    &&& c.created_at == c.updated_at
    &&& after == before.push(c)
}

/// The spec of an update of the command with id `id` (see
/// [`QuickCommandStore::update_at`]); `stamped` says whether a valid result
/// got the new update time `now`.
pub open spec fn updated_by(
    before: Seq<QuickCommandView>,
    after: Seq<QuickCommandView>,
    id: Seq<char>,
    patch: QuickCommandPatch,
    r: Result<(), AppError>,
    now: Option<Seq<char>>,
) -> bool {
    if find_id(before, id) < 0 {
        (r matches Err(AppError::Config(e)) && e@ == "未找到快捷指令: "@ + id) && after == before
    } else {
        let i = find_id(before, id);
        let n = after[i];
        &&& after.len() == before.len()
        &&& forall|j: int| 0 <= j < before.len() && j != i ==> after[j] == before[j]
        &&& patched(before[i], patch, n)
        &&& match command_error(n) {
            Some(m) => (r matches Err(AppError::Config(e)) && e@ == m) && n.updated_at
                == before[i].updated_at,
            None => r is Ok && (now matches Some(t) ==> n.updated_at == t),
        }
    }
}

impl QuickCommandStore {
    /// An empty store.
    pub fn new() -> (r: Self)
        ensures
            r@.len() == 0,
    {
        QuickCommandStore { commands: Vec::new() }
    }

    /// The commands shown for a session (global ones, and the session's
    /// own when a key is given), in store order.
    pub fn list_for_session(&self, session_key: Option<&str>) -> (r: Vec<QuickCommand>)
        ensures
            command_views(r@) == visible_commands(
                self@,
                match session_key {
                    Some(k) => Some(k@),
                    None => None,
                },
            ),
    {
        let ghost key = match session_key {
            Some(k) => Some(k@),
            None => None::<Seq<char>>,
        };
        let ghost cv = self@;
        let mut r: Vec<QuickCommand> = Vec::new();
        let mut i: usize = 0;
        assert(cv.take(0) =~= Seq::<QuickCommandView>::empty());
        assert(command_views(r@) =~= Seq::<QuickCommandView>::empty());
        while i < self.commands.len()
            invariant
                i <= self.commands.len(),
                cv == command_views(self.commands@),
                key == match session_key {
                    Some(k) => Some(k@),
                    None => None,
                },
                command_views(r@) == visible_commands(cv.take(i as int), key),
            decreases self.commands.len() - i,
        {
            let c = &self.commands[i];
            assert(cv.take(i + 1).drop_last() =~= cv.take(i as int));
            assert(cv.take(i + 1).last() == c@);
            let shown = match c.scope {
                QuickCommandScope::Global => true,
                QuickCommandScope::Session => match session_key {
                    Some(k) => match &c.session_key {
                        Some(s) => str_eq(s.as_str(), k),
                        None => false,
                    },
                    None => false,
                },
            };
            if shown {
                let ghost before = command_views(r@);
                let d = copy_command(c);
                r.push(d);
                assert(command_views(r@) =~= before.push(c@));
            }
            i = i + 1;
        }
        assert(cv.take(cv.len() as int) =~= cv);
        r
    }

    /// Adds a command created at `now`: the input is validated, the name
    /// trimmed, commands and session key normalized, and the new command
    /// appended and returned.
    pub fn add_at(&mut self, id: String, input: QuickCommandInput, now: String) -> (r: Result<
        QuickCommand,
        AppError,
    >)
        ensures
            match input_error(input) {
                Some(m) => (r matches Err(AppError::Config(e)) && e@ == m) && final(self)@ == old(self)@,
                None => r matches Ok(c) && created_from(c@, id@, input, old(self)@, final(self)@)
                    && c.created_at@ == now@,
            },
    {
        validate_input(&input)?;
        let command = QuickCommand {
            id,
            scope: input.scope,
            session_key: normalized_session_key(input.session_key),
            name: trim_string(input.name.as_str()),
            commands: normalize_commands(input.commands),
            interval_ms: input.interval_ms,
            insert_only: input.insert_only,
            created_at: now.clone(),
            updated_at: now,
        };
        let ghost before = self@;
        self.commands.push(copy_command(&command));
        assert(self@ =~= before.push(command@));
        Ok(command)
    }

    /// Adds a command stamped with the current time (see
    /// [`QuickCommandStore::add_at`]).
    pub fn add(&mut self, id: String, input: QuickCommandInput) -> (r: Result<
        QuickCommand,
        AppError,
    >)
        ensures
            match input_error(input) {
                Some(m) => (r matches Err(AppError::Config(e)) && e@ == m) && final(self)@ == old(self)@,
                None => r matches Ok(c) && created_from(c@, id@, input, old(self)@, final(self)@),
            },
    {
        let now = now_rfc3339();
        self.add_at(id, input, now)
    }

    /// Applies `patch` to the first command with id `id` and validates the
    /// result, stamping it with `now` when it is valid. A missing id is an
    /// error and changes nothing; an invalid result is an error but stays
    /// written (with its previous update time).
    pub fn update_at(&mut self, id: &str, patch: QuickCommandPatch, now: String) -> (r: Result<
        (),
        AppError,
    >)
        ensures
            updated_by(old(self)@, final(self)@, id@, patch, r, Some(now@)),
    {
        let ghost old_cmds = self@;
        let mut i: usize = 0;
        while i < self.commands.len() && !str_eq(self.commands[i].id.as_str(), id)
            invariant
                i <= self.commands.len(),
                self@ == old_cmds,
                forall|q: int| 0 <= q < i ==> (#[trigger] old_cmds[q]).id != id@,
            decreases self.commands.len() - i,
        {
            i = i + 1;
        }
        proof {
            lemma_find_id(old_cmds, id@, i as int);
        }
        if i == self.commands.len() {
            let mut m = String::from_str("未找到快捷指令: ");
            m.append(id);
            return Err(AppError::Config(m));
        }
        let mut n = copy_command(&self.commands[i]);
        match patch.scope {
            Some(scope) => {
                n.scope = scope;
            },
            None => {},
        }
        match &patch.session_key {
            Some(session_key) => {
                n.session_key = normalized_session_key(copy_opt_string(session_key));
            },
            None => {},
        }
        match &patch.name {
            Some(name) => {
                n.name = trim_string(name.as_str());
            },
            None => {},
        }
        match &patch.commands {
            Some(commands) => {
                n.commands = normalize_commands(copy_strings(commands));
            },
            None => {},
        }
        match patch.interval_ms {
            Some(v) => {
                n.interval_ms = v;
            },
            None => {},
        }
        match patch.insert_only {
            Some(v) => {
                n.insert_only = v;
            },
            None => {},
        }
        if n.scope == QuickCommandScope::Global {
            n.session_key = None;
        }
        assert(patched(old_cmds[i as int], patch, n@));
        match validate_command(&n) {
            Err(e) => {
                self.commands.set(i, n);
                assert(self@ =~= old_cmds.update(i as int, self@[i as int]));
                Err(e)
            },
            Ok(()) => {
                n.updated_at = now;
                self.commands.set(i, n);
                assert(self@ =~= old_cmds.update(i as int, self@[i as int]));
                Ok(())
            },
        }
    }

    /// Applies a patch stamped with the current time (see
    /// [`QuickCommandStore::update_at`]).
    pub fn update(&mut self, id: &str, patch: QuickCommandPatch) -> (r: Result<(), AppError>)
        ensures
            updated_by(old(self)@, final(self)@, id@, patch, r, None),
    {
        let now = now_rfc3339();
        self.update_at(id, patch, now)
    }

    /// Removes every command with id `id`; true when one was removed.
    pub fn remove(&mut self, id: &str) -> (r: bool)
        ensures
            final(self)@ == without_id(old(self)@, id@),
            r == (find_id(old(self)@, id@) >= 0),
    {
        let ghost old_cmds = self@;
        let mut kept: Vec<QuickCommand> = Vec::new();
        let mut found = false;
        let mut i: usize = 0;
        assert(old_cmds.take(0) =~= Seq::<QuickCommandView>::empty());
        assert(command_views(kept@) =~= Seq::<QuickCommandView>::empty());
        while i < self.commands.len()
            invariant
                i <= self.commands.len(),
                self@ == old_cmds,
                command_views(kept@) == without_id(old_cmds.take(i as int), id@),
                found == exists|j: int| 0 <= j < i && (#[trigger] old_cmds[j]).id == id@,
            decreases self.commands.len() - i,
        {
            let c = &self.commands[i];
            assert(old_cmds.take(i + 1).drop_last() =~= old_cmds.take(i as int));
            assert(old_cmds.take(i + 1).last() == c@);
            assert(old_cmds[i as int] == c@);
            if str_eq(c.id.as_str(), id) {
                found = true;
            } else {
                let ghost before = command_views(kept@);
                kept.push(copy_command(c));
                assert(command_views(kept@) =~= before.push(c@));
            }
            i = i + 1;
        }
        assert(old_cmds.take(old_cmds.len() as int) =~= old_cmds);
        proof {
            if found {
                let j = choose|j: int| 0 <= j < old_cmds.len() && (#[trigger] old_cmds[j]).id == id@;
                lemma_find_id_found(old_cmds, id@, j);
            } else {
                lemma_find_id(old_cmds, id@, old_cmds.len() as int);
            }
        }
        self.commands = kept;
        found
    }
}

/// A command created from a valid input is itself valid.
pub proof fn lemma_created_command_is_valid(
    c: QuickCommandView,
    id: Seq<char>,
    input: QuickCommandInput,
    before: Seq<QuickCommandView>,
    after: Seq<QuickCommandView>,
)
    requires
        input_error(input) is None,
        created_from(c, id, input, before, after),
    ensures
        command_error(c) is None,
{
    crate::text::lemma_trim_idempotent(input.name@);
    match opt_view(input.session_key) {
        Some(k) => {
            crate::text::lemma_trim_idempotent(k);
        },
        None => {},
    }
}

/// After a removal no command has the removed id, and every other command
/// is still there, in its order.
pub proof fn lemma_remove_drops_only_the_id(cs: Seq<QuickCommandView>, id: Seq<char>)
    ensures
        forall|k: int| 0 <= k < without_id(cs, id).len() ==> (#[trigger] without_id(cs, id)[k]).id
            != id,
        forall|c: QuickCommandView| #[trigger] cs.contains(c) && c.id != id ==> without_id(
            cs,
            id,
        ).contains(c),
        without_id(cs, id).len() <= cs.len(),
    decreases cs.len(),
{
    if cs.len() > 0 {
        let dl = cs.drop_last();
        lemma_remove_drops_only_the_id(dl, id);
        let prev = without_id(dl, id);
        let r = without_id(cs, id);
        assert forall|k: int| 0 <= k < r.len() implies (#[trigger] r[k]).id != id by {
            if k < prev.len() {
                assert(r[k] == prev[k]);
            }
        }
        assert forall|c: QuickCommandView| #[trigger] cs.contains(c) && c.id != id implies r.contains(
            c,
        ) by {
            let j = choose|j: int| 0 <= j < cs.len() && cs[j] == c;
            if j < dl.len() {
                assert(dl[j] == c);
                assert(dl.contains(c));
                let q = choose|q: int| 0 <= q < prev.len() && prev[q] == c;
                assert(r[q] == c);
            } else {
                assert(r[r.len() - 1] == c);
            }
        }
    }
}

/// A command just added is listed last: for every listing when it is
/// global, for its own session's listing when it belongs to a session.
pub proof fn lemma_added_command_is_listed(
    before: Seq<QuickCommandView>,
    c: QuickCommandView,
    key: Option<Seq<char>>,
)
    requires
        c.scope == QuickCommandScope::Global || (c.session_key is Some && key == c.session_key),
    ensures
        visible_commands(before.push(c), key) == visible_commands(before, key).push(c),
{
    assert(before.push(c).drop_last() =~= before);
}

/// Without a session only global commands are listed, all of them; with
/// a session every global command is listed too.
pub proof fn lemma_listing_scopes(cs: Seq<QuickCommandView>, key: Seq<char>)
    ensures
        forall|k: int|
            0 <= k < visible_commands(cs, None).len() ==> (#[trigger] visible_commands(
                cs,
                None,
            )[k]).scope == QuickCommandScope::Global,
        forall|c: QuickCommandView|
            #[trigger] cs.contains(c) && c.scope == QuickCommandScope::Global ==> visible_commands(
                cs,
                None,
            ).contains(c) && visible_commands(cs, Some(key)).contains(c),
    decreases cs.len(),
{
    if cs.len() > 0 {
        let dl = cs.drop_last();
        lemma_listing_scopes(dl, key);
        let pn = visible_commands(dl, None);
        let pk = visible_commands(dl, Some(key));
        let rn = visible_commands(cs, None);
        let rk = visible_commands(cs, Some(key));
        assert forall|k: int| 0 <= k < rn.len() implies (#[trigger] rn[k]).scope
            == QuickCommandScope::Global by {
            if k < pn.len() {
                assert(rn[k] == pn[k]);
            }
        }
        assert forall|c: QuickCommandView|
            #[trigger] cs.contains(c) && c.scope == QuickCommandScope::Global implies rn.contains(c)
            && rk.contains(c) by {
            let j = choose|j: int| 0 <= j < cs.len() && cs[j] == c;
            if j < dl.len() {
                assert(dl[j] == c);
                assert(dl.contains(c));
                let q = choose|q: int| 0 <= q < pn.len() && pn[q] == c;
                assert(rn[q] == c);
                let q2 = choose|q2: int| 0 <= q2 < pk.len() && pk[q2] == c;
                assert(rk[q2] == c);
            } else {
                assert(rn[rn.len() - 1] == c);
                assert(rk[rk.len() - 1] == c);
            }
        }
    }
}

} // verus!
