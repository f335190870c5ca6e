//! The multiplexed server's decision core: the registry of live
//! connections and the dispatch of one readiness event.
//!
//! The registry is the authoritative store of who is connected. Each
//! live connection holds a token, unique among the live ones and
//! assigned from a monotone counter; token 0 is reserved for the
//! listener. The transport handles themselves live with the caller,
//! keyed by these tokens: this core decides, the caller performs the
//! reads and writes it prescribes.

use vstd::prelude::*;

use crate::api::{EnvelopeV, MessageEnvelope, Username};

verus! {

/// The readiness token reserved for the listening socket.
pub const SERVER_TOKEN: usize = 0;

/// One live connection: its token and, once it logged in, its
/// identity.
pub struct ServerEntry {
    pub token: usize,
    pub identity: Option<Username>,
}

/// Mathematical model of `ServerEntry`.
pub ghost struct EntryV {
    pub token: usize,
    pub identity: Option<Seq<char>>,
}

impl View for ServerEntry {
    type V = EntryV;

    open spec fn view(&self) -> EntryV {
        EntryV {
            token: self.token,
            identity: match self.identity {
                Some(ref s) => Some(s@),
                None => None,
            },
        }
    }
}

pub open spec fn entries_view(s: Seq<ServerEntry>) -> Seq<EntryV> {
    s.map_values(|e: ServerEntry| e@)
}

/// Mathematical model of the server core.
pub ghost struct CoreV {
    pub next_token: usize,
    pub entries: Seq<EntryV>,
}

/// The tokens of the entries, in registry order.
pub open spec fn tokens_of(entries: Seq<EntryV>) -> Seq<usize> {
    entries.map_values(|e: EntryV| e.token)
}

/// The tokens of every entry but the one named, in registry order:
/// whom a frame from `t` is fanned out to.
pub open spec fn other_tokens(entries: Seq<EntryV>, t: usize) -> Seq<usize>
    decreases entries.len(),
{
    if entries.len() == 0 {
        Seq::<usize>::empty()
    } else if entries[0].token == t {
        other_tokens(entries.drop_first(), t)
    } else {
        seq![entries[0].token] + other_tokens(entries.drop_first(), t)
    }
}

/// The entries with the named token taken out.
pub open spec fn remove_token(entries: Seq<EntryV>, t: usize) -> Seq<EntryV>
    decreases entries.len(),
{
    if entries.len() == 0 {
        Seq::<EntryV>::empty()
    } else if entries[0].token == t {
        remove_token(entries.drop_first(), t)
    } else {
        seq![entries[0]] + remove_token(entries.drop_first(), t)
    }
}

/// Records `user` on the entry with token `t`, only if that entry has
/// no identity yet: a second login never overwrites the first.
pub open spec fn identify(entries: Seq<EntryV>, t: usize, user: Seq<char>) -> Seq<EntryV> {
    entries.map_values(
        |e: EntryV|
            if e.token == t && e.identity is None {
                EntryV { token: e.token, identity: Some(user) }
            } else {
                e
            },
    )
}

impl CoreV {
    pub open spec fn tokens(self) -> Seq<usize> {
        tokens_of(self.entries)
    }

    /// Registry sanity: live tokens are distinct, and all were handed
    /// out by the counter, which leaves 0 to the listener.
    pub open spec fn wf(self) -> bool {
        &&& self.next_token >= 1
        &&& tokens_of(self.entries).no_duplicates()
        &&& forall|k: int|
            0 <= k < self.entries.len() ==> 1 <= (#[trigger] self.entries[k].token)
                < self.next_token
    }
}

/// True when the envelope's content is `Exit`.
pub open spec fn is_exit_env(e: EnvelopeV) -> bool {
    match e.payload {
        Some(p) => p.content is Exit,
        None => false,
    }
}

/// True when the envelope's content is `Login`.
pub open spec fn is_login_env(e: EnvelopeV) -> bool {
    match e.payload {
        Some(p) => p.content is Login,
        None => false,
    }
}

/// The sender the envelope names.
pub open spec fn sender_of(e: EnvelopeV) -> Seq<char> {
    match e.payload {
        Some(p) => p.from_user,
        None => Seq::<char>::empty(),
    }
}

/// What a readable connection produced: one decoded frame, or the end
/// of its stream.
pub enum ConnEvent {
    /// A complete frame arrived and decoded.
    Frame(MessageEnvelope),
    /// The stream ended with no partial frame pending.
    CleanClose,
    /// The stream ended mid-frame, or failed: a protocol violation or
    /// transport error.
    Abrupt,
}

/// Mathematical model of `ConnEvent`.
pub ghost enum EventV {
    Frame(EnvelopeV),
    CleanClose,
    Abrupt,
}

impl View for ConnEvent {
    type V = EventV;

    open spec fn view(&self) -> EventV {
        match self {
            ConnEvent::Frame(env) => EventV::Frame(env@),
            ConnEvent::CleanClose => EventV::CleanClose,
            ConnEvent::Abrupt => EventV::Abrupt,
        }
    }
}

/// The transition of the server core on one event for a live token:
/// the registry afterwards, and the tokens the frame is written to.
///
/// A `Login` records the sender's identity (first login wins) and the
/// frame is passed on as a presence notice; an `Exit` removes the
/// sender and the farewell still reaches the others; any other frame
/// is fanned out unchanged; a closed or failed stream removes the
/// sender silently.
pub open spec fn spec_handle(s: CoreV, t: usize, ev: EventV) -> (CoreV, Seq<usize>) {
    match ev {
        EventV::Frame(env) => {
            if is_exit_env(env) {
                (
                    CoreV { next_token: s.next_token, entries: remove_token(s.entries, t) },
                    other_tokens(s.entries, t),
                )
            } else if is_login_env(env) {
                (
                    CoreV {
                        next_token: s.next_token,
                        entries: identify(s.entries, t, sender_of(env)),
                    },
                    other_tokens(s.entries, t),
                )
            } else {
                (s, other_tokens(s.entries, t))
            }
        },
        EventV::CleanClose => (
            CoreV { next_token: s.next_token, entries: remove_token(s.entries, t) },
            Seq::<usize>::empty(),
        ),
        EventV::Abrupt => (
            CoreV { next_token: s.next_token, entries: remove_token(s.entries, t) },
            Seq::<usize>::empty(),
        ),
    }
}

// ---------------------------------------------------------------------
// Facts about the registry operations.
// ---------------------------------------------------------------------
/// Membership in a sequence with one element put in front.
proof fn lemma_cons_contains(x: usize, s: Seq<usize>)
    ensures
        forall|u: usize| #[trigger] (seq![x] + s).contains(u) <==> (u == x || s.contains(u)),
        (seq![x] + s).no_duplicates() <==> (!s.contains(x) && s.no_duplicates()),
{
    let c = seq![x] + s;
    assert forall|u: usize| #[trigger] c.contains(u) implies (u == x || s.contains(u)) by {
        let i = choose|i: int| 0 <= i < c.len() && c[i] == u;
        if i > 0 {
            assert(s[i - 1] == u);
        }
    }
    assert forall|u: usize| (u == x || s.contains(u)) implies #[trigger] c.contains(u) by {
        if u == x {
            assert(c[0] == u);
        } else {
            let i = choose|i: int| 0 <= i < s.len() && s[i] == u;
            assert(c[i + 1] == u);
        }
    }
    if c.no_duplicates() {
        assert forall|i: int, j: int|
            0 <= i < s.len() && 0 <= j < s.len() && i != j implies s[i] != s[j] by {
            assert(c[i + 1] == s[i] && c[j + 1] == s[j]);
        }
        assert(!s.contains(x)) by {
            if s.contains(x) {
                let i = choose|i: int| 0 <= i < s.len() && s[i] == x;
                assert(c[0] == x && c[i + 1] == x);
            }
        }
    }
    if !s.contains(x) && s.no_duplicates() {
        assert forall|i: int, j: int|
            0 <= i < c.len() && 0 <= j < c.len() && i != j implies c[i] != c[j] by {
            if i > 0 && j > 0 {
                assert(c[i] == s[i - 1] && c[j] == s[j - 1]);
            } else if i == 0 && j > 0 {
                assert(c[j] == s[j - 1] && s.contains(s[j - 1]));
            } else if j == 0 && i > 0 {
                assert(c[i] == s[i - 1] && s.contains(s[i - 1]));
            }
        }
    }
}

/// What the fan-out list holds: every live token but the sender's,
/// each once; and removal leaves exactly those tokens live.
pub proof fn lemma_other_tokens(entries: Seq<EntryV>, t: usize)
    ensures
        forall|u: usize| #[trigger]
            other_tokens(entries, t).contains(u) <==> (tokens_of(entries).contains(u) && u != t),
        tokens_of(entries).no_duplicates() ==> other_tokens(entries, t).no_duplicates(),
        tokens_of(remove_token(entries, t)) == other_tokens(entries, t),
    decreases entries.len(),
{
    if entries.len() == 0 {
        assert(tokens_of(entries) =~= Seq::<usize>::empty());
        assert(tokens_of(remove_token(entries, t)) =~= other_tokens(entries, t));
    } else {
        let e0 = entries[0];
        let rest = entries.drop_first();
        lemma_other_tokens(rest, t);
        assert(tokens_of(entries) =~= seq![e0.token] + tokens_of(rest));
        lemma_cons_contains(e0.token, tokens_of(rest));
        if e0.token == t {
            // dropped from both the fan-out and the remaining registry
            assert(tokens_of(remove_token(entries, t)) == other_tokens(entries, t));
        } else {
            lemma_cons_contains(e0.token, other_tokens(rest, t));
            assert(remove_token(entries, t) == seq![e0] + remove_token(rest, t));
            assert(tokens_of(seq![e0] + remove_token(rest, t)) =~= seq![e0.token] + tokens_of(
                remove_token(rest, t),
            ));
        }
    }
}

/// Removing a token at its (unique) position is removing that entry.
proof fn lemma_remove_token_at(entries: Seq<EntryV>, t: usize, idx: int)
    requires
        0 <= idx < entries.len(),
        entries[idx].token == t,
        forall|k: int| 0 <= k < entries.len() && k != idx ==> (#[trigger] entries[k].token) != t,
    ensures
        remove_token(entries, t) == entries.remove(idx),
    decreases entries.len(),
{
    let rest = entries.drop_first();
    if idx == 0 {
        lemma_remove_token_absent(rest, t);
        assert(entries.remove(0) =~= rest);
    } else {
        assert(forall|k: int|
            0 <= k < rest.len() && k != idx - 1 ==> (#[trigger] rest[k].token) != t);
        lemma_remove_token_at(rest, t, idx - 1);
        assert(entries.remove(idx) =~= seq![entries[0]] + rest.remove(idx - 1));
    }
}

/// Removing a token that is not there changes nothing.
proof fn lemma_remove_token_absent(entries: Seq<EntryV>, t: usize)
    requires
        forall|k: int| 0 <= k < entries.len() ==> (#[trigger] entries[k].token) != t,
    ensures
        remove_token(entries, t) == entries,
    decreases entries.len(),
{
    if entries.len() > 0 {
        lemma_remove_token_absent(entries.drop_first(), t);
        assert(remove_token(entries, t) =~= entries);
    }
}

/// One step of the fan-out collection.
proof fn lemma_other_tokens_push(entries: Seq<EntryV>, e: EntryV, t: usize)
    ensures
        other_tokens(entries.push(e), t) == other_tokens(entries, t) + (if e.token == t {
            Seq::<usize>::empty()
        } else {
            seq![e.token]
        }),
    decreases entries.len(),
{
    let tail = if e.token == t {
        Seq::<usize>::empty()
    } else {
        seq![e.token]
    };
    if entries.len() == 0 {
        assert(entries.push(e)[0] == e);
        assert(entries.push(e).drop_first() =~= Seq::<EntryV>::empty());
        assert(other_tokens(Seq::<EntryV>::empty(), t) == Seq::<usize>::empty());
        assert(other_tokens(entries, t) == Seq::<usize>::empty());
        assert(other_tokens(entries.push(e), t) =~= other_tokens(entries, t) + tail);
    } else {
        assert(entries.push(e)[0] == entries[0]);
        assert(entries.push(e).drop_first() =~= entries.drop_first().push(e));
        lemma_other_tokens_push(entries.drop_first(), e, t);
        assert(other_tokens(entries.push(e), t) == (
        if entries[0].token == t {
            other_tokens(entries.drop_first().push(e), t)
        } else {
            seq![entries[0].token] + other_tokens(entries.drop_first().push(e), t)
        }));
        assert(other_tokens(entries.push(e), t) =~= other_tokens(entries, t) + tail);
    }
}

// ---------------------------------------------------------------------
// The executable core.
// ---------------------------------------------------------------------
/// Registry of live connections and the counter their tokens come
/// from.
pub struct ServerCore {
    next_token: usize,
    entries: Vec<ServerEntry>,
}

impl View for ServerCore {
    type V = CoreV;

    closed spec fn view(&self) -> CoreV {
        CoreV { next_token: self.next_token, entries: entries_view(self.entries@) }
    }
}

impl ServerCore {
    /// An empty registry; tokens start right above the listener's.
    pub fn new() -> (r: Self)
        ensures
            r@.entries == Seq::<EntryV>::empty(),
            r@.next_token == 1,
            r@.wf(),
    {
        let r = ServerCore { next_token: 1, entries: Vec::new() };
        proof {
            assert(r@.entries =~= Seq::<EntryV>::empty());
            assert(tokens_of(r@.entries) =~= Seq::<usize>::empty());
        }
        r
    }

    /// Registers a newly accepted connection under a fresh token, not
    /// held by any live connection, and returns it.
    pub fn accept(&mut self) -> (token: usize)
        requires
            old(self)@.wf(),
            old(self)@.next_token < usize::MAX,
        ensures
            final(self)@.wf(),
            token == old(self)@.next_token,
            !old(self)@.tokens().contains(token),
            final(self)@.entries == old(self)@.entries.push(
                EntryV { token: token, identity: None },
            ),
            final(self)@.next_token == old(self)@.next_token + 1,
    {
        let token = self.next_token;
        self.next_token = self.next_token + 1;
        self.entries.push(ServerEntry { token, identity: None });
        proof {
            let oldv = old(self)@.entries;
            let newv = final(self)@.entries;
            assert(newv =~= oldv.push(EntryV { token: token, identity: None }));
            assert(!old(self)@.tokens().contains(token)) by {
                if tokens_of(oldv).contains(token) {
                    let i = choose|i: int|
                        0 <= i < tokens_of(oldv).len() && tokens_of(oldv)[i] == token;
                    assert(oldv[i].token == token);
                }
            }
            assert(tokens_of(newv) =~= tokens_of(oldv).push(token));
            assert(tokens_of(newv).no_duplicates()) by {
                let tn = tokens_of(newv);
                let to = tokens_of(oldv);
                assert forall|i: int, j: int|
                    0 <= i < tn.len() && 0 <= j < tn.len() && i != j implies tn[i] != tn[j] by {
                    if i < to.len() && j < to.len() {
                    } else if i < to.len() {
                        assert(to.contains(to[i]) && oldv[i].token == to[i]);
                    } else if j < to.len() {
                        assert(to.contains(to[j]) && oldv[j].token == to[j]);
                    }
                }
            }
            assert forall|k: int|
                0 <= k < newv.len() implies 1 <= (#[trigger] newv[k].token)
                < final(self)@.next_token by {
                if k < oldv.len() {
                    assert(newv[k] == oldv[k]);
                } else {
                    assert(newv[k].token == token);
                }
            }
        }
        token
    }

    /// Whether the token counter can still hand out a fresh token.
    pub fn can_accept(&self) -> (r: bool)
        ensures
            r == (self@.next_token < usize::MAX),
    {
        self.next_token < usize::MAX
    }

    /// How many connections are live.
    pub fn live_count(&self) -> (n: usize)
        ensures
            n == self@.entries.len(),
    {
        self.entries.len()
    }

    /// The position of the live connection holding `token`.
    fn find_index(&self, token: usize) -> (r: Option<usize>)
        ensures
            match r {
                Some(idx) => idx < self@.entries.len() && self@.entries[idx as int].token == token,
                None => !self@.tokens().contains(token),
            },
    {
        let mut k: usize = 0;
        while k < self.entries.len()
            invariant
                k <= self@.entries.len(),
                self@.entries.len() == self.entries@.len(),
                forall|j: int| 0 <= j < k ==> (#[trigger] self@.entries[j].token) != token,
            decreases self.entries@.len() - k,
        {
            if self.entries[k].token == token {
                return Some(k);
            }
            k += 1;
        }
        proof {
            let toks = self@.tokens();
            if toks.contains(token) {
                let i = choose|i: int| 0 <= i < toks.len() && toks[i] == token;
                assert(self@.entries[i].token == token);
            }
        }
        None
    }

    /// The fan-out list for a frame sent by `token`: every live token
    /// but the sender's, in registry order.
    fn collect_other_tokens(&self, token: usize) -> (r: Vec<usize>)
        ensures
            r@ == other_tokens(self@.entries, token),
    {
        let mut targets: Vec<usize> = Vec::new();
        let mut k: usize = 0;
        proof {
            assert(entries_view(self.entries@).take(0) =~= Seq::<EntryV>::empty());
        }
        while k < self.entries.len()
            invariant
                k <= self.entries@.len(),
                targets@ == other_tokens(entries_view(self.entries@).take(k as int), token),
            decreases self.entries@.len() - k,
        {
            let ghost pre = entries_view(self.entries@).take(k as int);
            let ghost ek = self.entries@[k as int]@;
            proof {
                lemma_other_tokens_push(pre, ek, token);
                assert(entries_view(self.entries@).take(k + 1) =~= pre.push(ek));
            }
            let tok = self.entries[k].token;
            if tok != token {
                targets.push(tok);
                proof {
                    assert(targets@ =~= other_tokens(pre, token) + seq![ek.token]);
                }
            } else {
                proof {
                    assert(targets@ =~= other_tokens(pre, token) + Seq::<usize>::empty());
                }
            }
            k += 1;
        }
        proof {
            assert(entries_view(self.entries@).take(self.entries@.len() as int) =~= self@.entries);
        }
        targets
    }

    /// Dispatches one readiness outcome for `token`: applies
    /// `spec_handle` to the registry and returns the tokens the frame
    /// is to be written to. `None` exactly when no live connection
    /// holds the token; the registry is then untouched.
    pub fn handle_event(&mut self, token: usize, event: ConnEvent) -> (r: Option<Vec<usize>>)
        requires
            old(self)@.wf(),
        ensures
            final(self)@.wf(),
            match r {
                Some(targets) => {
                    &&& old(self)@.tokens().contains(token)
                    &&& final(self)@ == spec_handle(old(self)@, token, event@).0
                    &&& targets@ == spec_handle(old(self)@, token, event@).1
                },
                None => {
                    &&& !old(self)@.tokens().contains(token)
                    &&& final(self)@ == old(self)@
                },
            },
    {
        let idx = match self.find_index(token) {
            Some(i) => i,
            None => {
                return None;
            },
        };
        proof {
            assert(self@.tokens().contains(token)) by {
                assert(self@.tokens()[idx as int] == self@.entries[idx as int].token);
            }
        }
        let ghost s0 = self@;
        match event {
            ConnEvent::Frame(env) => {
                let targets = self.collect_other_tokens(token);
                let is_exit = match &env.payload {
                    Some(p) => p.content.is_exit(),
                    None => false,
                };
                let is_login = match &env.payload {
                    Some(p) => p.content.is_login(),
                    None => false,
                };
                if is_exit {
                    self.remove_at(idx, token, Ghost(s0));
                } else if is_login {
                    let user: String = match env.payload {
                        Some(p) => p.from_user,
                        None => String::new(),
                    };
                    let mut e = self.entries.remove(idx);
                    let ghost e_old = e@;
                    if e.identity.is_none() {
                        e.identity = Some(user);
                    }
                    let ghost e_new = e@;
                    self.entries.insert(idx, e);
                    proof {
                        let mapped = identify(s0.entries, token, sender_of(env@));
                        assert forall|k: int| 0 <= k < s0.entries.len() implies mapped[k]
                            == final(self)@.entries[k] by {
                            assert(final(self)@.entries[k] == entries_view(
                                final(self).entries@,
                            )[k]);
                            if k != idx {
                                assert(s0.entries[k].token != token) by {
                                    let t0 = tokens_of(s0.entries);
                                    assert(t0[k] == s0.entries[k].token && t0[idx as int]
                                        == s0.entries[idx as int].token);
                                }
                            }
                        }
                        assert(final(self)@.entries =~= mapped);
                        assert(tokens_of(final(self)@.entries) =~= tokens_of(s0.entries));
                    }
                } else {
                    // any other content: the registry is untouched
                    proof {
                        assert(final(self)@ == s0);
                    }
                }
                Some(targets)
            },
            ConnEvent::CleanClose => {
                self.remove_at(idx, token, Ghost(s0));
                Some(Vec::new())
            },
            ConnEvent::Abrupt => {
                self.remove_at(idx, token, Ghost(s0));
                Some(Vec::new())
            },
        }
    }

    /// Takes the entry at `idx`, which holds `token`, out of the
    /// registry.
    fn remove_at(&mut self, idx: usize, token: usize, Ghost(s0): Ghost<CoreV>)
        requires
            old(self)@ == s0,
            s0.wf(),
            idx < s0.entries.len(),
            s0.entries[idx as int].token == token,
        ensures
            final(self)@.next_token == s0.next_token,
            final(self)@.entries == remove_token(s0.entries, token),
            final(self)@.wf(),
    {
        let _removed = self.entries.remove(idx);
        proof {
            assert forall|k: int|
                0 <= k < s0.entries.len() && k != idx implies (#[trigger] s0.entries[k].token)
                != token by {
                let t0 = tokens_of(s0.entries);
                assert(t0[k] == s0.entries[k].token && t0[idx as int] == token);
            }
            lemma_remove_token_at(s0.entries, token, idx as int);
            assert(final(self)@.entries =~= s0.entries.remove(idx as int));
            lemma_other_tokens(s0.entries, token);
            let tn = tokens_of(final(self)@.entries);
            let ot = other_tokens(s0.entries, token);
            assert(tn == ot);
            assert(ot.no_duplicates());
            let sn = final(self)@;
            assert forall|k: int|
                0 <= k < sn.entries.len() implies 1 <= (#[trigger] sn.entries[k].token)
                < sn.next_token by {
                if k < idx {
                    assert(sn.entries[k] == s0.entries[k]);
                } else {
                    assert(sn.entries[k] == s0.entries[k + 1]);
                }
            }
        }
    }
}

// ---------------------------------------------------------------------
// Laws of the dispatch.
// ---------------------------------------------------------------------
/// Fan-out correctness: a frame arriving from a live connection is
/// addressed to every other live connection, each exactly once, and
/// never back to its sender.
pub proof fn lemma_fanout(s: CoreV, t: usize, env: EnvelopeV)
    requires
        s.wf(),
    ensures
        !spec_handle(s, t, EventV::Frame(env)).1.contains(t),
        forall|u: usize| #[trigger]
            spec_handle(s, t, EventV::Frame(env)).1.contains(u) <==> (s.tokens().contains(u) && u
                != t),
        spec_handle(s, t, EventV::Frame(env)).1.no_duplicates(),
{
    lemma_other_tokens(s.entries, t);
}

/// Exit removes the registry entry: once a connection sends `Exit` it
/// is no longer live, no later broadcast from any other connection
/// targets it, and its token may be registered anew without breaking
/// token uniqueness.
pub proof fn lemma_exit_removes(s: CoreV, a: usize, exit_env: EnvelopeV, b: usize, env2: EnvelopeV)
    requires
        s.wf(),
        is_exit_env(exit_env),
        b != a,
    ensures
        !spec_handle(s, a, EventV::Frame(exit_env)).0.tokens().contains(a),
        spec_handle(s, a, EventV::Frame(exit_env)).0.wf(),
        !spec_handle(
            spec_handle(s, a, EventV::Frame(exit_env)).0,
            b,
            EventV::Frame(env2),
        ).1.contains(a),
        tokens_of(
            spec_handle(s, a, EventV::Frame(exit_env)).0.entries.push(
                EntryV { token: a, identity: None },
            ),
        ).no_duplicates(),
{
    let s1 = spec_handle(s, a, EventV::Frame(exit_env)).0;
    lemma_other_tokens(s.entries, a);
    assert(tokens_of(s1.entries) == other_tokens(s.entries, a));
    assert(!s1.tokens().contains(a));
    assert(s1.wf()) by {
        assert forall|k: int|
            0 <= k < s1.entries.len() implies 1 <= (#[trigger] s1.entries[k].token)
            < s1.next_token by {
            lemma_remove_token_entry(s.entries, a, k);
        }
    }
    lemma_other_tokens(s1.entries, b);
    assert(!spec_handle(s1, b, EventV::Frame(env2)).1.contains(a));
    let pushed = s1.entries.push(EntryV { token: a, identity: None });
    assert(tokens_of(pushed) =~= tokens_of(s1.entries).push(a));
    lemma_push_distinct(tokens_of(s1.entries), a);
}

/// Every entry that survives a removal was in the registry before it.
proof fn lemma_remove_token_entry(entries: Seq<EntryV>, t: usize, k: int)
    requires
        0 <= k < remove_token(entries, t).len(),
    ensures
        exists|j: int|
            0 <= j < entries.len() && entries[j] == (#[trigger] remove_token(entries, t)[k]),
    decreases entries.len(),
{
    let rest = entries.drop_first();
    if entries.len() == 0 {
    } else if entries[0].token == t {
        lemma_remove_token_entry(rest, t, k);
        let j = choose|j: int| 0 <= j < rest.len() && rest[j] == remove_token(rest, t)[k];
        assert(entries[j + 1] == remove_token(entries, t)[k]);
    } else {
        if k == 0 {
            assert(entries[0] == remove_token(entries, t)[0]);
        } else {
            lemma_remove_token_entry(rest, t, k - 1);
            let j = choose|j: int| 0 <= j < rest.len() && rest[j] == remove_token(rest, t)[k - 1];
            assert(remove_token(entries, t)[k] == remove_token(rest, t)[k - 1]);
            assert(entries[j + 1] == remove_token(entries, t)[k]);
        }
    }
}

/// Pushing a token not yet present keeps the tokens distinct.
proof fn lemma_push_distinct(s: Seq<usize>, x: usize)
    requires
        s.no_duplicates(),
        !s.contains(x),
    ensures
        s.push(x).no_duplicates(),
{
    let p = s.push(x);
    assert forall|i: int, j: int|
        0 <= i < p.len() && 0 <= j < p.len() && i != j implies p[i] != p[j] by {
        if i < s.len() && j < s.len() {
        } else if i < s.len() {
            assert(s.contains(s[i]));
        } else if j < s.len() {
            assert(s.contains(s[j]));
        }
    }
}

} // verus!
