//! The event dispatcher: named listener lists, and dispatching an event to
//! the listeners registered under its name.
//!
//! Dispatching calls the listeners of the matching list in order; after each
//! call it consults the event's propagation flag and goes on to the next
//! listener only while propagation is stopped.

use vstd::prelude::*;
use vstd::std_specs::cmp::PartialEqSpec;

use crate::event::EventStopable;

verus! {

/// What a listener does to the events it receives.
#[derive(Clone, Copy, PartialEq, Eq, Structural, Debug)]
pub enum ListenerAction {
    /// Observe the event and leave it as it is.
    Observe,
    /// Stop the event's propagation.
    Stop,
}

/// Something that can be registered with a dispatcher and called on events.
///
/// Listeners are compared with `==` when they are removed, so the trait asks
/// that the implementor's `PartialEq` obey its specification.
pub trait ListenerCallable: PartialEq + Sized {
    /// Whether a call of this listener stops the propagation of the event.
    spec fn stops_events(&self) -> bool;

    /// The implementor's `==` agrees with its `eq_spec`.
    proof fn lemma_eq_obeys_spec()
        ensures
            Self::obeys_eq_spec(),
    ;

    fn call<E: EventStopable>(&self, event_name: &str, event: &mut E)
        ensures
            *final(event) == (if self.stops_events() {
                old(event).spec_stop()
            } else {
                *old(event)
            }),
    ;
}

/// A listener whose behaviour is given by a [`ListenerAction`].
pub struct EventListener {
    pub action: ListenerAction,
}

impl EventListener {
    pub fn new(action: ListenerAction) -> (r: EventListener)
        ensures
            r.action == action,
    {
        EventListener { action }
    }
}

impl PartialEq for EventListener {
    fn eq(&self, other: &EventListener) -> (r: bool) {
        self.action == other.action
    }
}

impl vstd::std_specs::cmp::PartialEqSpecImpl for EventListener {
    open spec fn obeys_eq_spec() -> bool {
        true
    }

    open spec fn eq_spec(&self, other: &EventListener) -> bool {
        self.action == other.action
    }
}

impl ListenerCallable for EventListener {
    open spec fn stops_events(&self) -> bool {
        self.action is Stop
    }

    proof fn lemma_eq_obeys_spec() {
    }

    fn call<E: EventStopable>(&self, event_name: &str, event: &mut E) {
        match self.action {
            ListenerAction::Observe => {},
            ListenerAction::Stop => {
                event.stop_propagation();
            },
        }
    }
}

/// The event after the listeners of one list have been dispatched on it.
///
/// The dispatcher calls the head listener, and goes on with the rest of the
/// list only while the event's propagation is stopped.
pub open spec fn dispatch_post<L: ListenerCallable, E: EventStopable>(ls: Seq<L>, pre: E) -> E
    decreases ls.len(),
{
    if ls.len() == 0 {
        pre
    } else {
        let head_post = if ls[0].stops_events() {
            pre.spec_stop()
        } else {
            pre
        };
        if !head_post.spec_stopped() {
            head_post
        } else {
            dispatch_post(ls.drop_first(), head_post)
        }
    }
}

/// The listener list a map holds under a name: empty when the name is absent.
pub open spec fn listeners_for<L>(m: Map<Seq<char>, Seq<L>>, name: Seq<char>) -> Seq<L> {
    if m.contains_key(name) {
        m[name]
    } else {
        Seq::empty()
    }
}

/// Something that can dispatch events to listeners by name.
pub trait Dispatchable<S: EventStopable> {
    /// The exact value of the event after dispatching it under a name.
    spec fn dispatch_spec(&self, event_name: Seq<char>, event: S) -> S;

    fn dispatch(&self, event_name: &str, event: &mut S)
        ensures
            *final(event) == self.dispatch_spec(event_name@, *old(event)),
    ;
}

struct ListenerEntry<L> {
    name: String,
    listeners: Vec<L>,
}

/// A dispatcher holding, under each event name, the list of listeners that
/// were registered for it, in registration order.
pub struct EventDispatcher<L: ListenerCallable> {
    entries: Vec<ListenerEntry<L>>,
}

/// The listener map a sequence of entries stands for; of entries sharing a
/// name, the earliest wins, as it does in the lookup.
spec fn entries_map<L>(s: Seq<ListenerEntry<L>>) -> Map<Seq<char>, Seq<L>>
    decreases s.len(),
{
    if s.len() == 0 {
        Map::empty()
    } else {
        entries_map(s.drop_first()).insert(s[0].name@, s[0].listeners@)
    }
}

impl<L: ListenerCallable> View for EventDispatcher<L> {
    type V = Map<Seq<char>, Seq<L>>;

    closed spec fn view(&self) -> Map<Seq<char>, Seq<L>> {
        entries_map(self.entries@)
    }
}

proof fn lemma_entries_map_contains<L>(s: Seq<ListenerEntry<L>>, k: Seq<char>)
    ensures
        entries_map(s).contains_key(k) <==> exists|i: int| 0 <= i < s.len() && s[i].name@ == k,
    decreases s.len(),
{
    if s.len() > 0 {
        lemma_entries_map_contains(s.drop_first(), k);
        if s[0].name@ == k {
        } else if entries_map(s).contains_key(k) {
            let i = choose|i: int| 0 <= i < s.drop_first().len() && s.drop_first()[i].name@ == k;
            assert(s[i + 1].name@ == k);
        } else {
            assert(forall|i: int|
                1 <= i < s.len() ==> s.drop_first()[i - 1] == s[i]);
        }
    }
}

proof fn lemma_entries_map_first<L>(s: Seq<ListenerEntry<L>>, i: int)
    requires
        0 <= i < s.len(),
        forall|j: int| 0 <= j < i ==> s[j].name@ != s[i].name@,
    ensures
        entries_map(s).contains_key(s[i].name@),
        entries_map(s)[s[i].name@] == s[i].listeners@,
    decreases i,
{
    if i == 0 {
    } else {
        assert(s.drop_first()[i - 1] == s[i]);
        assert(forall|j: int|
            0 <= j < i - 1 ==> s.drop_first()[j] == s[j + 1]);
        lemma_entries_map_first(s.drop_first(), i - 1);
    }
}

proof fn lemma_entries_map_update<L>(s: Seq<ListenerEntry<L>>, i: int, e: ListenerEntry<L>)
    requires
        0 <= i < s.len(),
        e.name@ == s[i].name@,
        forall|j: int| 0 <= j < i ==> s[j].name@ != s[i].name@,
    ensures
        entries_map(s.update(i, e)) =~= entries_map(s).insert(e.name@, e.listeners@),
    decreases i,
{
    let t = s.update(i, e);
    if i == 0 {
        assert(t.drop_first() =~= s.drop_first());
    } else {
        assert(t.drop_first() =~= s.drop_first().update(i - 1, e));
        assert(s.drop_first()[i - 1] == s[i]);
        assert(forall|j: int|
            0 <= j < i - 1 ==> s.drop_first()[j] == s[j + 1]);
        lemma_entries_map_update(s.drop_first(), i - 1, e);
        assert(t[0] == s[0]);
    }
}

proof fn lemma_entries_map_push<L>(s: Seq<ListenerEntry<L>>, e: ListenerEntry<L>)
    requires
        forall|j: int| 0 <= j < s.len() ==> s[j].name@ != e.name@,
    ensures
        entries_map(s.push(e)) =~= entries_map(s).insert(e.name@, e.listeners@),
    decreases s.len(),
{
    let t = s.push(e);
    if s.len() == 0 {
        assert(t.drop_first() =~= Seq::<ListenerEntry<L>>::empty());
        assert(t[0] == e);
        assert(entries_map(t.drop_first()) == Map::<Seq<char>, Seq<L>>::empty());
        assert(entries_map(s) == Map::<Seq<char>, Seq<L>>::empty());
        assert(entries_map(t) =~= entries_map(s).insert(e.name@, e.listeners@));
    } else {
        assert(t.drop_first() =~= s.drop_first().push(e));
        assert forall|j: int|
            0 <= j < s.drop_first().len() implies s.drop_first()[j].name@ != e.name@ by {
            assert(s.drop_first()[j] == s[j + 1]);
        }
        lemma_entries_map_push(s.drop_first(), e);
        assert(t[0] == s[0]);
        assert(s[0].name@ != e.name@);
        assert(entries_map(t) == entries_map(s.drop_first().push(e)).insert(
            s[0].name@,
            s[0].listeners@,
        ));
        assert(entries_map(s) == entries_map(s.drop_first()).insert(
            s[0].name@,
            s[0].listeners@,
        ));
        assert(entries_map(t) =~= entries_map(s).insert(e.name@, e.listeners@));
    }
}

impl<L: ListenerCallable> EventDispatcher<L> {
    pub fn new() -> (r: EventDispatcher<L>)
        ensures
            r@ == Map::<Seq<char>, Seq<L>>::empty(),
    {
        EventDispatcher { entries: Vec::new() }
    }

    /// Register a listener under an event name, at the end of the name's list.
    pub fn add_listener(&mut self, event_name: &str, listener: L)
        ensures
            final(self)@ == old(self)@.insert(
                event_name@,
                listeners_for(old(self)@, event_name@).push(listener),
            ),
    {
        let key = event_name.to_owned();
        let ghost s0 = self.entries@;
        let mut i: usize = 0;
        while i < self.entries.len()
            invariant
                i <= self.entries.len(),
                self.entries@ == s0,
                s0 == old(self).entries@,
                key@ == event_name@,
                forall|j: int| 0 <= j < i ==> s0[j].name@ != event_name@,
            decreases self.entries.len() - i,
        {
            if self.entries[i].name == key {
                let mut entry = self.entries.remove(i);
                entry.listeners.push(listener);
                self.entries.insert(i, entry);
                proof {
                    let t = self.entries@;
                    assert(t =~= s0.update(i as int, t[i as int]));
                    assert(t[i as int].name@ == event_name@);
                    assert(t[i as int].listeners@ =~= s0[i as int].listeners@.push(listener));
                    lemma_entries_map_first(s0, i as int);
                    assert(listeners_for(old(self)@, event_name@) == s0[i as int].listeners@);
                    lemma_entries_map_update(s0, i as int, t[i as int]);
                }
                return ;
            }
            i += 1;
        }
        let mut listeners: Vec<L> = Vec::new();
        listeners.push(listener);
        self.entries.push(ListenerEntry { name: key, listeners });
        proof {
            let e = self.entries@.last();
            lemma_entries_map_contains(s0, event_name@);
            assert(!old(self)@.contains_key(event_name@));
            lemma_entries_map_push(s0, e);
            assert(self.entries@ =~= s0.push(e));
            assert(e.listeners@ =~= listeners_for(old(self)@, event_name@).push(listener));
        }
    }

    /// Unregister the first listener equal to the given one from an event
    /// name's list; absent name or listener, the dispatcher is unchanged.
    pub fn remove_listener(&mut self, event_name: &str, listener: &L)
        ensures
            final(self)@ == (if old(self)@.contains_key(event_name@) {
                old(self)@.insert(
                    event_name@,
                    remove_first_eq(old(self)@[event_name@], *listener),
                )
            } else {
                old(self)@
            }),
    {
        let key = event_name.to_owned();
        let ghost s0 = self.entries@;
        let mut i: usize = 0;
        while i < self.entries.len()
            invariant
                i <= self.entries.len(),
                self.entries@ == s0,
                s0 == old(self).entries@,
                key@ == event_name@,
                forall|j: int| 0 <= j < i ==> s0[j].name@ != event_name@,
            decreases self.entries.len() - i,
        {
            if self.entries[i].name == key {
                proof {
                    lemma_entries_map_first(s0, i as int);
                }
                let ghost ls0 = s0[i as int].listeners@;
                let n = self.entries[i].listeners.len();
                let mut j: usize = 0;
                while j < n
                    invariant
                        j <= n,
                        n == ls0.len(),
                        self.entries@ == s0,
                        s0 == old(self).entries@,
                        0 <= i < s0.len(),
                        ls0 == s0[i as int].listeners@,
                        s0[i as int].name@ == event_name@,
                        forall|k: int| 0 <= k < i ==> s0[k].name@ != event_name@,
                        old(self)@.contains_key(event_name@),
                        old(self)@[event_name@] == ls0,
                        forall|k: int| 0 <= k < j ==> !ls0[k].eq_spec(listener),
                    decreases n - j,
                {
                    proof {
                        L::lemma_eq_obeys_spec();
                    }
                    if self.entries[i].listeners[j] == *listener {
                        let mut entry = self.entries.remove(i);
                        entry.listeners.remove(j);
                        self.entries.insert(i, entry);
                        proof {
                            let t = self.entries@;
                            assert(t =~= s0.update(i as int, t[i as int]));
                            assert(t[i as int].listeners@ =~= ls0.remove(j as int));
                            lemma_remove_first_eq_at(ls0, *listener, j as int);
                            lemma_entries_map_update(s0, i as int, t[i as int]);
                        }
                        return ;
                    }
                    j += 1;
                }
                proof {
                    lemma_remove_first_eq_none(ls0, *listener);
                    assert(old(self)@.insert(event_name@, ls0) =~= old(self)@);
                }
                return ;
            }
            i += 1;
        }
        proof {
            lemma_entries_map_contains(s0, event_name@);
        }
    }
}

/// The first listener of the list equal to the given one is dropped; a list
/// with no equal listener is left as it is.
pub open spec fn remove_first_eq<L: PartialEq>(ls: Seq<L>, target: L) -> Seq<L>
    decreases ls.len(),
{
    if ls.len() == 0 {
        ls
    } else if ls[0].eq_spec(&target) {
        ls.drop_first()
    } else {
        seq![ls[0]] + remove_first_eq(ls.drop_first(), target)
    }
}

proof fn lemma_remove_first_eq_at<L: PartialEq>(ls: Seq<L>, target: L, i: int)
    requires
        0 <= i < ls.len(),
        ls[i].eq_spec(&target),
        forall|j: int| 0 <= j < i ==> !ls[j].eq_spec(&target),
    ensures
        remove_first_eq(ls, target) =~= ls.remove(i),
    decreases i,
{
    if i == 0 {
        assert(ls.remove(0) =~= ls.drop_first());
    } else {
        assert(!ls[0].eq_spec(&target));
        assert(ls.drop_first()[i - 1] == ls[i]);
        assert forall|j: int| 0 <= j < i - 1 implies !ls.drop_first()[j].eq_spec(&target) by {
            assert(ls.drop_first()[j] == ls[j + 1]);
        }
        lemma_remove_first_eq_at(ls.drop_first(), target, i - 1);
        assert(seq![ls[0]] + ls.drop_first().remove(i - 1) =~= ls.remove(i));
    }
}

proof fn lemma_remove_first_eq_none<L: PartialEq>(ls: Seq<L>, target: L)
    requires
        forall|j: int| 0 <= j < ls.len() ==> !ls[j].eq_spec(&target),
    ensures
        remove_first_eq(ls, target) =~= ls,
    decreases ls.len(),
{
    if ls.len() > 0 {
        assert forall|j: int|
            0 <= j < ls.drop_first().len() implies !ls.drop_first()[j].eq_spec(&target) by {
            assert(ls.drop_first()[j] == ls[j + 1]);
        }
        lemma_remove_first_eq_none(ls.drop_first(), target);
        assert(seq![ls[0]] + ls.drop_first() =~= ls);
    }
}

impl<S: EventStopable, L: ListenerCallable> Dispatchable<S> for EventDispatcher<L> {
    open spec fn dispatch_spec(&self, event_name: Seq<char>, event: S) -> S {
        dispatch_post(listeners_for(self@, event_name), event)
    }

    fn dispatch(&self, event_name: &str, event: &mut S) {
        let key = event_name.to_owned();
        let mut i: usize = 0;
        while i < self.entries.len()
            invariant
                i <= self.entries.len(),
                key@ == event_name@,
                *event == *old(event),
                forall|j: int| 0 <= j < i ==> self.entries@[j].name@ != event_name@,
            decreases self.entries.len() - i,
        {
            if self.entries[i].name == key {
                proof {
                    lemma_entries_map_first(self.entries@, i as int);
                }
                let ghost lsv = self.entries@[i as int].listeners@;
                let ghost pre = *event;
                proof {
                    assert(lsv.skip(0) =~= lsv);
                    assert(listeners_for(self@, event_name@) == lsv);
                }
                let n = self.entries[i].listeners.len();
                let mut j: usize = 0;
                while j < n
                    invariant
                        j <= n,
                        0 <= i < self.entries.len(),
                        n == lsv.len(),
                        lsv == self.entries@[i as int].listeners@,
                        listeners_for(self@, event_name@) == lsv,
                        pre == *old(event),
                        dispatch_post(lsv, pre) == dispatch_post(lsv.skip(j as int), *event),
                    decreases n - j,
                {
                    let stopped = {
                        self.entries[i].listeners[j].call(event_name, event);
                        event.is_propagation_stopped()
                    };
                    proof {
                        assert(lsv.skip(j as int)[0] == lsv[j as int]);
                        assert(lsv.skip(j as int).drop_first() =~= lsv.skip(j as int + 1));
                    }
                    if !stopped {
                        return ;
                    }
                    j += 1;
                }
                proof {
                    assert(lsv.skip(n as int) =~= Seq::<L>::empty());
                }
                return ;
            }
            i += 1;
        }
        proof {
            lemma_entries_map_contains(self.entries@, event_name@);
            assert(!self@.contains_key(event_name@));
        }
    }
}

} // verus!
