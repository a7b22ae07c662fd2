//! The dispatch engine's decisions: which handlers an event fans out to and
//! what is reported when one of them fails.
//!
//! The registry maps each command name, marker stripped, to its handlers in
//! registration order; button-press events route to a single catch-all list.
//! Handlers themselves are opaque units of work owned by the runtime and are
//! addressed here by identifier. The runtime starts one task per planned
//! handler; when a task ends abnormally, the report decision here says what
//! notice, if any, goes to the operator. Dispatching itself never fails: an
//! unknown command plans zero handlers.

use vstd::prelude::*;

use crate::text::is_space;
use crate::text::is_space_char;
use crate::types::CallbackQuery;
use crate::types::Message;

verus! {

use vstd::string::StrSliceExecFns;
use vstd::string::StringExecFns;

/// Identifies one registered handler; the runtime owns the callback itself.
pub type HandlerId = u64;

/// One command's handlers, in registration order.
pub struct CommandEntry {
    pub name: String,
    pub handlers: Vec<HandlerId>,
}

/// The command registry together with the dispatch configuration.
pub struct Dispatcher {
    commands: Vec<CommandEntry>,
    callbacks: Vec<HandlerId>,
    concurrency_limit: Option<u64>,
    admin: Option<i64>,
}

/// The handlers registered under `name` in an association sequence; empty
/// when the name is absent.
pub open spec fn lookup_in(es: Seq<(Seq<char>, Seq<HandlerId>)>, name: Seq<char>) -> Seq<HandlerId>
    decreases es.len(),
{
    if es.len() == 0 {
        Seq::empty()
    } else if es[0].0 == name {
        es[0].1
    } else {
        lookup_in(es.drop_first(), name)
    }
}

/// `s` without its leading command markers.
pub open spec fn strip_leading_slashes(s: Seq<char>) -> Seq<char>
    decreases s.len(),
{
    if s.len() > 0 && s[0] == '/' {
        strip_leading_slashes(s.drop_first())
    } else {
        s
    }
}

/// First position at or after `i` that ends the leading token.
pub open spec fn token_end(s: Seq<char>, i: int) -> int
    decreases s.len() - i,
{
    if i < 0 || i >= s.len() || is_space_char(s[i]) {
        i
    } else {
        token_end(s, i + 1)
    }
}

/// The first whitespace-delimited token of `s`.
pub open spec fn first_token(s: Seq<char>) -> Seq<char> {
    s.subrange(0, token_end(s, 0))
}

/// The command a message text addresses: the first token, markers stripped,
/// provided the text begins with the command marker.
pub open spec fn message_command(text: Seq<char>) -> Option<Seq<char>> {
    if text.len() > 0 && text[0] == '/' {
        Some(strip_leading_slashes(first_token(text)))
    } else {
        None
    }
}

/// The command addressed by a message, when it carries one.
pub open spec fn message_command_of(msg: Message) -> Option<Seq<char>> {
    match msg.text {
        Some(t) => message_command(t@),
        None => None,
    }
}

/// First position at or after `i` holding an ASCII space.
pub open spec fn space_index(s: Seq<char>, i: int) -> int
    decreases s.len() - i,
{
    if i < 0 || i >= s.len() || s[i] == ' ' {
        i
    } else {
        space_index(s, i + 1)
    }
}

/// The text after the first ASCII space: what a command hands its handler
/// as payload, unmodified. Empty when no space follows the command token.
pub open spec fn payload_of(text: Seq<char>) -> Seq<char> {
    if space_index(text, 0) < text.len() {
        text.subrange(space_index(text, 0) + 1, text.len() as int)
    } else {
        Seq::empty()
    }
}

impl Dispatcher {
    /// The registry as an association sequence of (name, handlers).
    pub closed spec fn entries(self) -> Seq<(Seq<char>, Seq<HandlerId>)> {
        self.commands@.map_values(|e: CommandEntry| (e.name@, e.handlers@))
    }

    /// The catch-all handlers for button-press events, in registration order.
    pub closed spec fn spec_callbacks(self) -> Seq<HandlerId> {
        self.callbacks@
    }

    /// The configured operator identity.
    pub closed spec fn spec_admin(self) -> Option<i64> {
        self.admin
    }

    /// The configured concurrency bound.
    pub closed spec fn spec_limit(self) -> Option<u64> {
        self.concurrency_limit
    }

    /// Each command name is registered at most once.
    pub open spec fn wf(self) -> bool {
        forall|i: int, j: int|
            0 <= i < j < self.entries().len() ==> (#[trigger] self.entries()[i]).0 != (
            #[trigger] self.entries()[j]).0
    }

    /// The handlers a message fans out to.
    pub open spec fn plan_for(self, msg: Message) -> Seq<HandlerId> {
        match message_command_of(msg) {
            Some(name) => lookup_in(self.entries(), name),
            None => Seq::empty(),
        }
    }
}

proof fn lemma_lookup_absent(es: Seq<(Seq<char>, Seq<HandlerId>)>, name: Seq<char>)
    requires
        forall|j: int| 0 <= j < es.len() ==> (#[trigger] es[j]).0 != name,
    ensures
        lookup_in(es, name) == Seq::<HandlerId>::empty(),
    decreases es.len(),
{
    if es.len() > 0 {
        assert forall|j: int| 0 <= j < es.drop_first().len() implies (#[trigger] es.drop_first()[j]).0
            != name by {
            assert(es.drop_first()[j] == es[j + 1]);
        }
        lemma_lookup_absent(es.drop_first(), name);
    }
}

proof fn lemma_lookup_found(es: Seq<(Seq<char>, Seq<HandlerId>)>, i: int)
    requires
        0 <= i < es.len(),
        forall|j: int| 0 <= j < i ==> (#[trigger] es[j]).0 != es[i].0,
    ensures
        lookup_in(es, es[i].0) == es[i].1,
    decreases i,
{
    if i > 0 {
        assert(es.drop_first()[i - 1] == es[i]);
        assert forall|j: int| 0 <= j < i - 1 implies (#[trigger] es.drop_first()[j]).0 != es
            .drop_first()[i - 1].0 by {
            assert(es.drop_first()[j] == es[j + 1]);
        }
        lemma_lookup_found(es.drop_first(), i - 1);
    }
}

proof fn lemma_lookup_update(
    es: Seq<(Seq<char>, Seq<HandlerId>)>,
    i: int,
    hs: Seq<HandlerId>,
)
    requires
        0 <= i < es.len(),
        forall|p: int, q: int| 0 <= p < q < es.len() ==> (#[trigger] es[p]).0 != (#[trigger] es[q]).0,
    ensures
        lookup_in(es.update(i, (es[i].0, hs)), es[i].0) == hs,
        forall|o: Seq<char>|
            o != es[i].0 ==> #[trigger] lookup_in(es.update(i, (es[i].0, hs)), o) == lookup_in(
                es,
                o,
            ),
    decreases es.len(),
{
    let key = es[i].0;
    let es2 = es.update(i, (key, hs));
    if i == 0 {
        assert(es2[0] == (key, hs));
        assert(es2.drop_first() =~= es.drop_first());
        assert forall|o: Seq<char>|
            o != key implies #[trigger] lookup_in(es2, o) == lookup_in(es, o) by {
            assert(lookup_in(es2, o) == lookup_in(es2.drop_first(), o));
            assert(lookup_in(es, o) == lookup_in(es.drop_first(), o));
        }
    } else {
        assert(es2[0] == es[0]);
        assert(es[0].0 != key);
        assert(es2.drop_first() =~= es.drop_first().update(i - 1, (key, hs)));
        assert forall|p: int, q: int|
            0 <= p < q < es.drop_first().len() implies (#[trigger] es.drop_first()[p]).0 != (
            #[trigger] es.drop_first()[q]).0 by {
            assert(es.drop_first()[p] == es[p + 1]);
            assert(es.drop_first()[q] == es[q + 1]);
        }
        assert(es.drop_first()[i - 1] == es[i]);
        lemma_lookup_update(es.drop_first(), i - 1, hs);
        assert(lookup_in(es2, key) == lookup_in(es2.drop_first(), key));
        assert forall|o: Seq<char>|
            o != key implies #[trigger] lookup_in(es2, o) == lookup_in(es, o) by {
            if o == es[0].0 {
            } else {
                assert(lookup_in(es2, o) == lookup_in(es2.drop_first(), o));
                assert(lookup_in(es, o) == lookup_in(es.drop_first(), o));
            }
        }
    }
}

proof fn lemma_lookup_append(es: Seq<(Seq<char>, Seq<HandlerId>)>, name: Seq<char>, h: HandlerId)
    requires
        forall|j: int| 0 <= j < es.len() ==> (#[trigger] es[j]).0 != name,
    ensures
        lookup_in(es.push((name, seq![h])), name) == seq![h],
        forall|o: Seq<char>|
            o != name ==> #[trigger] lookup_in(es.push((name, seq![h])), o) == lookup_in(es, o),
    decreases es.len(),
{
    let es2 = es.push((name, seq![h]));
    if es.len() == 0 {
        assert(es2[0] == (name, seq![h]));
        assert(es2.drop_first() =~= Seq::<(Seq<char>, Seq<HandlerId>)>::empty());
        assert forall|o: Seq<char>|
            o != name implies #[trigger] lookup_in(es2, o) == lookup_in(es, o) by {
            assert(lookup_in(es2, o) == lookup_in(es2.drop_first(), o));
        }
    } else {
        assert(es2[0] == es[0]);
        assert(es[0].0 != name);
        assert(es2.drop_first() =~= es.drop_first().push((name, seq![h])));
        assert forall|j: int| 0 <= j < es.drop_first().len() implies (#[trigger] es.drop_first()[j]).0
            != name by {
            assert(es.drop_first()[j] == es[j + 1]);
        }
        lemma_lookup_append(es.drop_first(), name, h);
        assert forall|o: Seq<char>|
            o != name implies #[trigger] lookup_in(es2, o) == lookup_in(es, o) by {
            if o == es[0].0 {
            } else {
                assert(lookup_in(es2, o) == lookup_in(es2.drop_first(), o));
                assert(lookup_in(es, o) == lookup_in(es.drop_first(), o));
            }
        }
    }
}

proof fn lemma_wf_congruent(a: Dispatcher, b: Dispatcher)
    requires
        a.entries() == b.entries(),
    ensures
        a.wf() == b.wf(),
{
    if a.wf() {
        assert forall|i: int, j: int|
            0 <= i < j < b.entries().len() implies (#[trigger] b.entries()[i]).0 != (
        #[trigger] b.entries()[j]).0 by {
            assert(b.entries()[i] == a.entries()[i]);
            assert(b.entries()[j] == a.entries()[j]);
        }
    }
    if b.wf() {
        assert forall|i: int, j: int|
            0 <= i < j < a.entries().len() implies (#[trigger] a.entries()[i]).0 != (
        #[trigger] a.entries()[j]).0 by {
            assert(a.entries()[i] == b.entries()[i]);
            assert(a.entries()[j] == b.entries()[j]);
        }
    }
}

proof fn lemma_strip_prefix(s: Seq<char>, i: int)
    requires
        0 <= i <= s.len(),
        forall|k: int| 0 <= k < i ==> s[k] == '/',
        i == s.len() || s[i] != '/',
    ensures
        strip_leading_slashes(s) == s.subrange(i, s.len() as int),
    decreases i,
{
    if i == 0 {
        assert(s.subrange(0, s.len() as int) =~= s);
    } else {
        assert(s[0] == '/');
        let s1 = s.drop_first();
        assert forall|k: int| 0 <= k < i - 1 implies s1[k] == '/' by {
            assert(s1[k] == s[k + 1]);
        }
        assert(i - 1 == s1.len() || s1[i - 1] != '/');
        lemma_strip_prefix(s1, i - 1);
        assert(s1.subrange(i - 1, s1.len() as int) =~= s.subrange(i, s.len() as int));
    }
}

proof fn lemma_token_end_eq(s: Seq<char>, e: int)
    requires
        0 <= e <= s.len(),
        forall|k: int| 0 <= k < e ==> !is_space_char(#[trigger] s[k]),
        e == s.len() || is_space_char(s[e]),
    ensures
        token_end(s, 0) == e,
{
    lemma_token_end_eq_from(s, 0, e);
}

proof fn lemma_token_end_eq_from(s: Seq<char>, i: int, e: int)
    requires
        0 <= i <= e <= s.len(),
        forall|k: int| i <= k < e ==> !is_space_char(#[trigger] s[k]),
        e == s.len() || is_space_char(s[e]),
    ensures
        token_end(s, i) == e,
    decreases e - i,
{
    if i < e {
        lemma_token_end_eq_from(s, i + 1, e);
    }
}

proof fn lemma_space_index_eq(s: Seq<char>, i: int, e: int)
    requires
        0 <= i <= e <= s.len(),
        forall|k: int| i <= k < e ==> s[k] != ' ',
        e == s.len() || s[e] == ' ',
    ensures
        space_index(s, i) == e,
    decreases e - i,
{
    if i < e {
        lemma_space_index_eq(s, i + 1, e);
    }
}

/// A command name with its leading markers stripped, as a fresh string.
pub fn normalize_command(cmd: &str) -> (r: String)
    ensures
        r@ == strip_leading_slashes(cmd@),
{
    let n = cmd.unicode_len();
    let mut i: usize = 0;
    while i < n
        invariant_except_break
            n == cmd@.len(),
            0 <= i <= n,
            forall|k: int| 0 <= k < i ==> cmd@[k] == '/',
        ensures
            0 <= i <= n,
            n == cmd@.len(),
            forall|k: int| 0 <= k < i ==> cmd@[k] == '/',
            i == n || cmd@[i as int] != '/',
        decreases n - i,
    {
        if cmd.get_char(i) != '/' {
            break ;
        }
        i += 1;
    }
    proof {
        lemma_strip_prefix(cmd@, i as int);
    }
    let tail = cmd.substring_char(i, n);
    String::from_str(tail)
}

/// Copies a handler list.
fn copy_ids(v: &Vec<HandlerId>) -> (r: Vec<HandlerId>)
    ensures
        r@ == v@,
{
    let mut r: Vec<HandlerId> = Vec::new();
    let mut i: usize = 0;
    while i < v.len()
        invariant
            0 <= i <= v.len(),
            r@ == v@.subrange(0, i as int),
        decreases v.len() - i,
    {
        r.push(v[i]);
        i += 1;
        assert(r@ =~= v@.subrange(0, i as int));
    }
    assert(r@ =~= v@);
    r
}

impl Dispatcher {
    /// An empty registry with no bound and no operator.
    pub fn new() -> (r: Dispatcher)
        ensures
            r.wf(),
            r.entries() == Seq::<(Seq<char>, Seq<HandlerId>)>::empty(),
            r.spec_callbacks() == Seq::<HandlerId>::empty(),
            r.spec_admin() == None::<i64>,
            r.spec_limit() == None::<u64>,
    {
        let r = Dispatcher {
            commands: Vec::new(),
            callbacks: Vec::new(),
            concurrency_limit: None,
            admin: None,
        };
        proof {
            assert(r.entries() =~= Seq::<(Seq<char>, Seq<HandlerId>)>::empty());
        }
        r
    }

    /// Bounds how many handler tasks may run at once.
    pub fn set_concurrency_limit(&mut self, bound: u64)
        ensures
            final(self).spec_limit() == Some(bound),
            final(self).entries() == old(self).entries(),
            final(self).spec_callbacks() == old(self).spec_callbacks(),
            final(self).spec_admin() == old(self).spec_admin(),
            final(self).wf() == old(self).wf(),
    {
        self.concurrency_limit = Some(bound);
        proof {
            lemma_wf_congruent(*old(self), *self);
        }
    }

    /// Sets (or clears) the operator who receives failure notices.
    pub fn set_admin(&mut self, admin: Option<i64>)
        ensures
            final(self).spec_admin() == admin,
            final(self).entries() == old(self).entries(),
            final(self).spec_callbacks() == old(self).spec_callbacks(),
            final(self).spec_limit() == old(self).spec_limit(),
            final(self).wf() == old(self).wf(),
    {
        self.admin = admin;
        proof {
            lemma_wf_congruent(*old(self), *self);
        }
    }

    /// The configured concurrency bound.
    pub fn concurrency_limit(&self) -> (r: Option<u64>)
        ensures
            r == self.spec_limit(),
    {
        self.concurrency_limit
    }

    /// The configured operator identity.
    pub fn admin(&self) -> (r: Option<i64>)
        ensures
            r == self.spec_admin(),
    {
        self.admin
    }

    /// Registers one more handler under a command name (marker stripped);
    /// appends, never replaces.
    pub fn add_command(&mut self, cmd: &str, handler: HandlerId)
        requires
            old(self).wf(),
        ensures
            final(self).wf(),
            lookup_in(final(self).entries(), strip_leading_slashes(cmd@)) == lookup_in(
                old(self).entries(),
                strip_leading_slashes(cmd@),
            ).push(handler),
            forall|o: Seq<char>|
                o != strip_leading_slashes(cmd@) ==> #[trigger] lookup_in(
                    final(self).entries(),
                    o,
                ) == lookup_in(old(self).entries(), o),
            final(self).spec_callbacks() == old(self).spec_callbacks(),
            final(self).spec_admin() == old(self).spec_admin(),
            final(self).spec_limit() == old(self).spec_limit(),
    {
        let key = normalize_command(cmd);
        let ghost es = self.entries();
        let n = self.commands.len();
        let mut idx: usize = 0;
        let mut found = false;
        while idx < n
            invariant_except_break
                n == self.commands.len(),
                0 <= idx <= n,
                es == self.entries(),
                key@ == strip_leading_slashes(cmd@),
                !found,
                forall|j: int| 0 <= j < idx ==> (#[trigger] es[j]).0 != key@,
            ensures
                n == self.commands.len(),
                0 <= idx <= n,
                es == self.entries(),
                key@ == strip_leading_slashes(cmd@),
                forall|j: int| 0 <= j < idx ==> (#[trigger] es[j]).0 != key@,
                found ==> idx < n && es[idx as int].0 == key@,
                !found ==> idx == n,
            decreases n - idx,
        {
            if self.commands[idx].name == key {
                found = true;
                break ;
            }
            idx += 1;
        }
        if found {
            proof {
                lemma_lookup_found(es, idx as int);
                lemma_lookup_update(es, idx as int, es[idx as int].1.push(handler));
            }
            let mut entry = self.commands.remove(idx);
            entry.handlers.push(handler);
            self.commands.insert(idx, entry);
            proof {
                assert(self.entries() =~= es.update(
                    idx as int,
                    (es[idx as int].0, es[idx as int].1.push(handler)),
                ));
                assert forall|i: int, j: int|
                    0 <= i < j < self.entries().len() implies (#[trigger] self.entries()[i]).0 != (
                #[trigger] self.entries()[j]).0 by {
                    assert(self.entries()[i].0 == es[i].0);
                    assert(self.entries()[j].0 == es[j].0);
                }
            }
        } else {
            proof {
                lemma_lookup_absent(es, key@);
                lemma_lookup_append(es, key@, handler);
            }
            let mut handlers: Vec<HandlerId> = Vec::new();
            handlers.push(handler);
            let ghost key_view = key@;
            self.commands.push(CommandEntry { name: key, handlers });
            proof {
                assert(self.entries() =~= es.push((key_view, seq![handler])));
                assert forall|i: int, j: int|
                    0 <= i < j < self.entries().len() implies (#[trigger] self.entries()[i]).0 != (
                #[trigger] self.entries()[j]).0 by {
                    if j < es.len() {
                        assert(self.entries()[i] == es[i]);
                        assert(self.entries()[j] == es[j]);
                    } else {
                        assert(self.entries()[i] == es[i]);
                        assert(self.entries()[j].0 == key_view);
                    }
                }
            }
        }
    }

    /// Registers one more catch-all handler for button-press events.
    pub fn add_callback(&mut self, handler: HandlerId)
        ensures
            final(self).spec_callbacks() == old(self).spec_callbacks().push(handler),
            final(self).entries() == old(self).entries(),
            final(self).spec_admin() == old(self).spec_admin(),
            final(self).spec_limit() == old(self).spec_limit(),
            final(self).wf() == old(self).wf(),
    {
        self.callbacks.push(handler);
        proof {
            assert(self.entries() =~= old(self).entries());
            lemma_wf_congruent(*old(self), *self);
        }
    }

    /// The handlers registered under a name, in registration order; empty
    /// when nothing is registered under it.
    pub fn lookup(&self, name: &str) -> (r: Vec<HandlerId>)
        requires
            self.wf(),
        ensures
            r@ == lookup_in(self.entries(), name@),
    {
        let name_owned = String::from_str(name);
        let ghost es = self.entries();
        let n = self.commands.len();
        let mut idx: usize = 0;
        while idx < n
            invariant_except_break
                n == self.commands.len(),
                0 <= idx <= n,
                es == self.entries(),
                name_owned@ == name@,
                self.wf(),
                forall|j: int| 0 <= j < idx ==> (#[trigger] es[j]).0 != name@,
            ensures
                n == self.commands.len(),
                es == self.entries(),
                0 <= idx <= n,
                forall|j: int| 0 <= j < idx ==> (#[trigger] es[j]).0 != name@,
                idx < n ==> es[idx as int].0 == name@,
            decreases n - idx,
        {
            if self.commands[idx].name == name_owned {
                break ;
            }
            idx += 1;
        }
        if idx < n {
            proof {
                lemma_lookup_found(es, idx as int);
            }
            copy_ids(&self.commands[idx].handlers)
        } else {
            proof {
                lemma_lookup_absent(es, name@);
            }
            Vec::new()
        }
    }

    /// Plans the fan-out for an incoming message: the command it addresses,
    /// if any, and the handlers to start, in registration order. A message
    /// without the command marker, or with a command nobody registered,
    /// plans zero handlers — a no-op, never an error.
    pub fn dispatch(&self, msg: &Message) -> (plan: DispatchPlan)
        requires
            self.wf(),
        ensures
            plan.handlers@ == self.plan_for(*msg),
            command_view(plan.command) == message_command_of(*msg),
    {
        match &msg.text {
            None => DispatchPlan { command: None, handlers: Vec::new() },
            Some(text) => match command_name(text.as_str()) {
                None => DispatchPlan { command: None, handlers: Vec::new() },
                Some(name) => {
                    let handlers = self.lookup(name.as_str());
                    DispatchPlan { command: Some(name), handlers }
                },
            },
        }
    }

    /// Plans the fan-out for a button-press event: every catch-all handler,
    /// in registration order, whatever the payload.
    pub fn dispatch_callback(&self, _cb: &CallbackQuery) -> (plan: Vec<HandlerId>)
        ensures
            plan@ == self.spec_callbacks(),
    {
        copy_ids(&self.callbacks)
    }

}

/// The command a text addresses, normalized as the dispatcher looks it up:
/// the first whitespace-delimited token with its leading markers stripped,
/// provided the text begins with the command marker.
pub fn command_name(text: &str) -> (r: Option<String>)
    ensures
        command_view(r) == message_command(text@),
{
    let n = text.unicode_len();
    if n == 0 {
        return None;
    }
    if text.get_char(0) != '/' {
        return None;
    }
    let mut e: usize = 0;
    while e < n
        invariant_except_break
            n == text@.len(),
            0 <= e <= n,
            forall|k: int| 0 <= k < e ==> !is_space_char(#[trigger] text@[k]),
        ensures
            0 <= e <= n,
            n == text@.len(),
            forall|k: int| 0 <= k < e ==> !is_space_char(#[trigger] text@[k]),
            e == n || is_space_char(text@[e as int]),
        decreases n - e,
    {
        if is_space(text.get_char(e)) {
            break ;
        }
        e += 1;
    }
    proof {
        lemma_token_end_eq(text@, e as int);
    }
    let tok = text.substring_char(0, e);
    let name = normalize_command(tok);
    proof {
        assert(tok@ == first_token(text@));
    }
    Some(name)
}

/// The notice owed for one finished command-handler task; `None` when it
/// completed, or when no operator is configured.
pub fn command_report(admin: Option<i64>, command: &str, term: &TaskTermination) -> (r: Option<
    Notice,
>)
    ensures
        notice_view(r) == spec_command_report(admin, command@, *term),
{
    match admin {
            None => None,
            Some(aid) => match term {
                TaskTermination::Completed => None,
                TaskTermination::Failed(e) => {
                    let mut text = String::from_str("Handler error for command '/");
                    text.append(command);
                    text.append("': ");
                    text.append(e.as_str());
                    proof {
                        assert(text@ =~= "Handler error for command '/"@ + command@ + "': "@
                            + e@);
                    }
                    Some(Notice { chat_id: aid, text })
                },
                TaskTermination::Panicked(p) => {
                    let mut text = String::from_str("Handler panicked for command '/");
                    text.append(command);
                    text.append("': ");
                    text.append(p.as_str());
                    proof {
                        assert(text@ =~= "Handler panicked for command '/"@ + command@ + "': "@
                            + p@);
                    }
                    Some(Notice { chat_id: aid, text })
                },
            },
        }
    }

/// The notice owed for one finished catch-all task.
pub fn callback_report(admin: Option<i64>, term: &TaskTermination) -> (r: Option<Notice>)
    ensures
        notice_view(r) == spec_callback_report(admin, *term),
{
    match admin {
            None => None,
            Some(aid) => match term {
                TaskTermination::Completed => None,
                TaskTermination::Failed(e) => {
                    let mut text = String::from_str("Callback handler error: ");
                    text.append(e.as_str());
                    Some(Notice { chat_id: aid, text })
                },
                TaskTermination::Panicked(p) => {
                    let mut text = String::from_str("Callback handler panicked: ");
                    text.append(p.as_str());
                    Some(Notice { chat_id: aid, text })
                },
            },
        }
    }

/// The fan-out planned for one incoming message.
pub struct DispatchPlan {
    /// The normalized command name the message addressed, if it was a
    /// command at all (registered or not).
    pub command: Option<String>,
    /// The handlers to start, in registration order.
    pub handlers: Vec<HandlerId>,
}

/// Ghost image of a planned command name.
pub open spec fn command_view(c: Option<String>) -> Option<Seq<char>> {
    match c {
        Some(s) => Some(s@),
        None => None,
    }
}

/// How one handler task ended: normally, with a returned error, or with an
/// unexpected internal fault caught at the task's isolation boundary.
#[derive(Clone, Debug)]
pub enum TaskTermination {
    Completed,
    Failed(String),
    Panicked(String),
}

/// A best-effort notification owed to the operator.
#[derive(Clone, Debug)]
pub struct Notice {
    pub chat_id: i64,
    pub text: String,
}

/// Ghost image of an optional notice.
pub open spec fn notice_view(n: Option<Notice>) -> Option<(i64, Seq<char>)> {
    match n {
        Some(x) => Some((x.chat_id, x.text@)),
        None => None,
    }
}

/// What the dispatcher reports for one finished command-handler task: with
/// an operator configured, an error return and an internal fault each earn
/// their own notice, and a normal completion none.
pub open spec fn spec_command_report(
    admin: Option<i64>,
    command: Seq<char>,
    term: TaskTermination,
) -> Option<(i64, Seq<char>)> {
    match admin {
        None => None,
        Some(aid) => match term {
            TaskTermination::Completed => None,
            TaskTermination::Failed(e) => Some(
                (aid, "Handler error for command '/"@ + command + "': "@ + e@),
            ),
            TaskTermination::Panicked(p) => Some(
                (aid, "Handler panicked for command '/"@ + command + "': "@ + p@),
            ),
        },
    }
}

/// What the dispatcher reports for one finished catch-all task.
pub open spec fn spec_callback_report(
    admin: Option<i64>,
    term: TaskTermination,
) -> Option<(i64, Seq<char>)> {
    match admin {
        None => None,
        Some(aid) => match term {
            TaskTermination::Completed => None,
            TaskTermination::Failed(e) => Some((aid, "Callback handler error: "@ + e@)),
            TaskTermination::Panicked(p) => Some((aid, "Callback handler panicked: "@ + p@)),
        },
    }
}

/// The reports owed for a whole fan-out, task by task.
pub open spec fn spec_reports(
    admin: Option<i64>,
    command: Seq<char>,
    terms: Seq<TaskTermination>,
) -> Seq<Option<(i64, Seq<char>)>> {
    Seq::new(terms.len(), |i: int| spec_command_report(admin, command, terms[i]))
}

/// Fault isolation at the report boundary: what is reported for one task of
/// a fan-out depends on that task's own termination alone — however its
/// siblings end, its report is the same.
pub proof fn lemma_report_isolated(
    admin: Option<i64>,
    command: Seq<char>,
    t1: Seq<TaskTermination>,
    t2: Seq<TaskTermination>,
    i: int,
)
    requires
        t1.len() == t2.len(),
        0 <= i < t1.len(),
        t1[i] == t2[i],
    ensures
        spec_reports(admin, command, t1)[i] == spec_reports(admin, command, t2)[i],
{
}

/// With an operator configured, every abnormal termination of a fan-out is
/// reported: an error return and an internal fault alike, each
/// independently of the others.
pub proof fn lemma_failures_reported(
    admin: i64,
    command: Seq<char>,
    terms: Seq<TaskTermination>,
    i: int,
)
    requires
        0 <= i < terms.len(),
        !(terms[i] is Completed),
    ensures
        spec_reports(Some(admin), command, terms)[i] is Some,
{
}

/// Dispatching a command nobody registered plans nothing: it completes
/// without error and starts no task.
pub proof fn lemma_unregistered_is_noop(d: Dispatcher, name: Seq<char>)
    requires
        forall|j: int| 0 <= j < d.entries().len() ==> (#[trigger] d.entries()[j]).0 != name,
    ensures
        lookup_in(d.entries(), name) == Seq::<HandlerId>::empty(),
{
    lemma_lookup_absent(d.entries(), name);
}

/// The payload a command hands its handler: the text after the first ASCII
/// space, unmodified; empty when there is none.
pub fn command_payload(text: &str) -> (r: String)
    ensures
        r@ == payload_of(text@),
{
    let n = text.unicode_len();
    let mut e: usize = 0;
    while e < n
        invariant_except_break
            n == text@.len(),
            0 <= e <= n,
            forall|k: int| 0 <= k < e ==> #[trigger] text@[k] != ' ',
        ensures
            0 <= e <= n,
            n == text@.len(),
            forall|k: int| 0 <= k < e ==> #[trigger] text@[k] != ' ',
            e == n || text@[e as int] == ' ',
        decreases n - e,
    {
        if text.get_char(e) == ' ' {
            break ;
        }
        e += 1;
    }
    proof {
        lemma_space_index_eq(text@, 0, e as int);
    }
    if e < n {
        let tail = text.substring_char(e + 1, n);
        String::from_str(tail)
    } else {
        String::new()
    }
}

} // verus!
