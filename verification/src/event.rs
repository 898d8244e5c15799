//! Events of the tree, and the hub that hands them to observers.

use vstd::prelude::*;

verus! {

/// What happened to a node.
#[derive(Clone, Copy, Debug, PartialEq, Eq, Structural)]
pub enum SysEventAction {
    /// A node was added to the tree.
    Add,
    /// A node was removed from the tree.
    Remove,
    /// A node of the tree changed.
    Change,
}

/// A detail of an event: a key and its value.
#[derive(Debug)]
pub struct SysEventKv {
    pub key: String,
    pub value: String,
}

impl View for SysEventKv {
    type V = (Seq<char>, Seq<char>);

    open spec fn view(&self) -> (Seq<char>, Seq<char>) {
        (self.key@, self.value@)
    }
}

impl Clone for SysEventKv {
    fn clone(&self) -> (r: Self)
        ensures
            r@ == self@,
    {
        SysEventKv { key: self.key.clone(), value: self.value.clone() }
    }
}

/// What an event is: the action, the path of the node, and the details.
pub struct SysEventView {
    pub action: SysEventAction,
    pub path: Seq<char>,
    pub details: Seq<(Seq<char>, Seq<char>)>,
}

/// The details of a sequence of key-value pairs, one view for each.
pub open spec fn kv_views(details: Seq<SysEventKv>) -> Seq<(Seq<char>, Seq<char>)> {
    Seq::new(details.len(), |i: int| details[i]@)
}

/// An event of the tree.
#[derive(Debug)]
pub struct SysEvent {
    action: SysEventAction,
    path: String,
    details: Vec<SysEventKv>,
}

impl View for SysEvent {
    type V = SysEventView;

    closed spec fn view(&self) -> SysEventView {
        SysEventView { action: self.action, path: self.path@, details: kv_views(self.details@) }
    }
}

impl Clone for SysEvent {
    fn clone(&self) -> (r: Self)
        ensures
            r@ == self@,
    {
        let mut details: Vec<SysEventKv> = Vec::new();
        let mut i: usize = 0;
        while i < self.details.len()
            invariant
                i <= self.details.len(),
                details@.len() == i,
                forall|k: int| 0 <= k < i ==> (#[trigger] details@[k])@ == self.details@[k]@,
            decreases self.details.len() - i,
        {
            details.push(self.details[i].clone());
            i = i + 1;
        }
        let r = SysEvent { action: self.action, path: self.path.clone(), details };
        assert(kv_views(r.details@) =~= kv_views(self.details@));
        r
    }
}

impl SysEvent {
    pub fn new(action: SysEventAction, path: String, details: Vec<SysEventKv>) -> (r: Self)
        ensures
            r@ == (SysEventView { action, path: path@, details: kv_views(details@) }),
    {
        SysEvent { action, path, details }
    }

    pub fn action(&self) -> (r: SysEventAction)
        ensures
            r == self@.action,
    {
        self.action
    }

    pub fn path(&self) -> (r: &str)
        ensures
            r@ == self@.path,
    {
        self.path.as_str()
    }

    pub fn details(&self) -> (r: &[SysEventKv])
        ensures
            kv_views(r@) == self@.details,
    {
        self.details.as_slice()
    }
}

/// Which events an observer wants.
#[derive(Clone, Copy, Debug, PartialEq, Eq, Structural)]
pub enum SysEventSelector {
    /// Every event.
    All,
    /// The events of one action.
    Action(SysEventAction),
}

/// Whether `selector` lets an event of the action `action` through.
pub open spec fn admits(selector: SysEventSelector, action: SysEventAction) -> bool {
    match selector {
        SysEventSelector::All => true,
        SysEventSelector::Action(a) => a == action,
    }
}

impl SysEventSelector {
    /// Whether the selector lets `event` through.
    pub fn filter(&self, event: &SysEvent) -> (r: bool)
        ensures
            r == admits(*self, event@.action),
    {
        match self {
            SysEventSelector::All => true,
            SysEventSelector::Action(action) => *action == event.action(),
        }
    }
}

/// `All` lets every event through, and `Action(a)` those of the action `a`
/// and no other.
pub proof fn lemma_admits(a: SysEventAction, action: SysEventAction)
    ensures
        admits(SysEventSelector::All, action),
        admits(SysEventSelector::Action(a), action) == (a == action),
{
}

/// The events of a sequence of events, one view for each.
pub open spec fn event_views(events: Seq<SysEvent>) -> Seq<SysEventView> {
    Seq::new(events.len(), |i: int| events[i]@)
}

/// What the hub knows of an observer: its identity, the events it wants,
/// and the events that wait for it, oldest first.
pub struct ObserverView {
    pub id: u64,
    pub selector: SysEventSelector,
    pub inbox: Seq<SysEventView>,
}

struct Observer {
    id: u64,
    selector: SysEventSelector,
    inbox: Vec<SysEvent>,
}

impl View for Observer {
    type V = ObserverView;

    closed spec fn view(&self) -> ObserverView {
        ObserverView { id: self.id, selector: self.selector, inbox: event_views(self.inbox@) }
    }
}

/// Whether an observer with the identity `id` is among `obs`.
pub open spec fn is_registered(obs: Seq<ObserverView>, id: u64) -> bool {
    exists|i: int| 0 <= i < obs.len() && (#[trigger] obs[i]).id == id
}

/// The position among `obs` of the observer with the identity `id`.
pub open spec fn observer_index(obs: Seq<ObserverView>, id: u64) -> int {
    choose|i: int| 0 <= i < obs.len() && (#[trigger] obs[i]).id == id
}

/// Whether no identity occurs twice among `obs`.
pub open spec fn observers_distinct(obs: Seq<ObserverView>) -> bool {
    forall|i: int, j: int|
        0 <= i < obs.len() && 0 <= j < obs.len() && i != j ==> (#[trigger] obs[i]).id != (
        #[trigger] obs[j]).id
}

/// The observer `o` after the event `e` was published.
pub open spec fn received(o: ObserverView, e: SysEventView) -> ObserverView {
    if admits(o.selector, e.action) {
        ObserverView { id: o.id, selector: o.selector, inbox: o.inbox.push(e) }
    } else {
        o
    }
}

/// The observers `obs` after the event `e` was published: each one whose
/// selector lets `e` through has it as its newest event.
pub open spec fn delivered(obs: Seq<ObserverView>, e: SysEventView) -> Seq<ObserverView> {
    Seq::new(obs.len(), |i: int| received(obs[i], e))
}

/// The observers `obs` after `id` was registered with the selector
/// `selector`: an observer that is there already stays as it is.
pub open spec fn registered(obs: Seq<ObserverView>, id: u64, selector: SysEventSelector) -> Seq<
    ObserverView,
> {
    if is_registered(obs, id) {
        obs
    } else {
        obs.push(ObserverView { id, selector, inbox: Seq::empty() })
    }
}

/// The observers `obs` without the observer `id`.
pub open spec fn unregistered(obs: Seq<ObserverView>, id: u64) -> Seq<ObserverView> {
    if is_registered(obs, id) {
        obs.remove(observer_index(obs, id))
    } else {
        obs
    }
}

/// The observers `obs` after the observer `id` has taken its events.
pub open spec fn emptied(obs: Seq<ObserverView>, id: u64) -> Seq<ObserverView> {
    Seq::new(
        obs.len(),
        |i: int|
            if obs[i].id == id {
                ObserverView { id: obs[i].id, selector: obs[i].selector, inbox: Seq::empty() }
            } else {
                obs[i]
            },
    )
}

/// Among observers with distinct identities only one position holds a given one.
pub proof fn lemma_observer_index_unique(obs: Seq<ObserverView>, id: u64, i: int)
    requires
        observers_distinct(obs),
        0 <= i < obs.len(),
        obs[i].id == id,
    ensures
        is_registered(obs, id),
        observer_index(obs, id) == i,
{
    let m = observer_index(obs, id);
    if m != i {
        assert(obs[m].id != obs[i].id);
    }
}

/// Where observers register for the events of the tree and find them.
pub struct SysEventHub {
    observers: Vec<Observer>,
}

impl View for SysEventHub {
    type V = Seq<ObserverView>;

    closed spec fn view(&self) -> Seq<ObserverView> {
        Seq::new(self.observers@.len(), |i: int| self.observers@[i]@)
    }
}

impl SysEventHub {
    /// The invariant of the type.
    pub open spec fn wf(&self) -> bool {
        observers_distinct(self@)
    }

    pub fn new() -> (r: Self)
        ensures
            r@ == Seq::<ObserverView>::empty(),
            r.wf(),
    {
        let r = SysEventHub { observers: Vec::new() };
        assert(r@ =~= Seq::<ObserverView>::empty());
        r
    }

    fn position(&self, observer: u64) -> (r: Option<usize>)
        requires
            self.wf(),
        ensures
            r.is_some() == is_registered(self@, observer),
            r.is_some() ==> r.unwrap() == observer_index(self@, observer) && r.unwrap()
                < self@.len() && self@[r.unwrap() as int].id == observer,
    {
        let mut i: usize = 0;
        while i < self.observers.len()
            invariant
                i <= self.observers.len(),
                self.wf(),
                forall|k: int| 0 <= k < i ==> (#[trigger] self@[k]).id != observer,
            decreases self.observers.len() - i,
        {
            if self.observers[i].id == observer {
                proof {
                    lemma_observer_index_unique(self@, observer, i as int);
                }
                return Some(i);
            }
            i = i + 1;
        }
        None
    }

    /// Hands the event to every observer whose selector lets it through.
    /// Without a path, the node is not part of the tree and nothing happens.
    pub fn publish_event(
        &mut self,
        path: Option<String>,
        action: SysEventAction,
        details: Vec<SysEventKv>,
    )
        requires
            old(self).wf(),
        ensures
            final(self).wf(),
            match path {
                Some(p) => final(self)@ == delivered(
                    old(self)@,
                    SysEventView { action, path: p@, details: kv_views(details@) },
                ),
                None => final(self)@ == old(self)@,
            },
    {
        let event = match path {
            Some(p) => SysEvent::new(action, p, details),
            None => { return ; },
        };
        let ghost before = self@;
        let mut i: usize = 0;
        while i < self.observers.len()
            invariant
                i <= self.observers.len(),
                self@.len() == before.len(),
                forall|k: int| 0 <= k < i ==> #[trigger] self@[k] == received(before[k], event@),
                forall|k: int| i <= k < before.len() ==> #[trigger] self@[k] == before[k],
            decreases self.observers.len() - i,
        {
            if self.observers[i].selector.filter(&event) {
                let ghost prev = self.observers@;
                let ghost mid = self@;
                assert(mid[i as int] == prev[i as int]@);
                let copy = event.clone();
                self.observers[i].inbox.push(copy);
                assert(self.observers@.len() == prev.len());
                assert(self.observers@[i as int].inbox@ == prev[i as int].inbox@.push(copy));
                assert(self.observers@[i as int].id == prev[i as int].id);
                assert(self.observers@[i as int].selector == prev[i as int].selector);
                assert(forall|k: int|
                    0 <= k < prev.len() && k != i ==> self.observers@[k] == prev[k]);
                assert(event_views(self.observers@[i as int].inbox@) =~= event_views(
                    prev[i as int].inbox@,
                ).push(event@));
                assert(self@[i as int] == received(before[i as int], event@));
                assert forall|k: int| 0 <= k < before.len() && k != i implies #[trigger] self@[k]
                    == mid[k] by {
                    assert(self.observers@[k] == prev[k]);
                }
            }
            i = i + 1;
        }
        assert(self@ =~= delivered(before, event@));
        assert forall|a: int, b: int|
            0 <= a < self@.len() && 0 <= b < self@.len() && a != b implies (#[trigger] self@[a]).id
            != (#[trigger] self@[b]).id by {
            assert(before[a].id != before[b].id);
        }
    }

    /// Registers `observer` for the events that `filter` lets through. An
    /// observer that is registered already stays as it is.
    pub fn register_observer(&mut self, observer: u64, filter: SysEventSelector)
        requires
            old(self).wf(),
        ensures
            final(self).wf(),
            final(self)@ == registered(old(self)@, observer, filter),
    {
        if self.position(observer).is_some() {
            return ;
        }
        let ghost before = self@;
        self.observers.push(Observer { id: observer, selector: filter, inbox: Vec::new() });
        proof {
            let fresh = ObserverView { id: observer, selector: filter, inbox: Seq::empty() };
            assert(event_views(Seq::<SysEvent>::empty()) =~= Seq::<SysEventView>::empty());
            assert(self@ =~= before.push(fresh));
            assert forall|a: int, b: int|
                0 <= a < self@.len() && 0 <= b < self@.len() && a != b implies (
            #[trigger] self@[a]).id != (#[trigger] self@[b]).id by {
                if a < before.len() && b < before.len() {
                    assert(before[a].id != before[b].id);
                } else if a < before.len() {
                    assert(before[a].id != observer);
                } else {
                    assert(before[b].id != observer);
                }
            }
        }
    }

    /// Takes `observer` off the hub, with the events that wait for it, and
    /// returns its identity; `None` where it was not registered.
    pub fn unregister_observer(&mut self, observer: u64) -> (r: Option<u64>)
        requires
            old(self).wf(),
        ensures
            final(self).wf(),
            !is_registered(final(self)@, observer),
            final(self)@ == unregistered(old(self)@, observer),
            r == (if is_registered(old(self)@, observer) {
                Some(observer)
            } else {
                None
            }),
    {
        let ghost before = self@;
        match self.position(observer) {
            None => None,
            Some(i) => {
                self.observers.remove(i);
                proof {
                    assert(self@ =~= before.remove(i as int));
                    assert forall|a: int| 0 <= a < self@.len() implies (#[trigger] self@[a]).id
                        != observer by {
                        let oa = if a < i { a } else { a + 1 };
                        assert(before[oa].id != before[i as int].id);
                    }
                    assert forall|a: int, b: int|
                        0 <= a < self@.len() && 0 <= b < self@.len() && a != b implies (
                    #[trigger] self@[a]).id != (#[trigger] self@[b]).id by {
                        let oa = if a < i { a } else { a + 1 };
                        let ob = if b < i { b } else { b + 1 };
                        assert(before[oa].id != before[ob].id);
                    }
                }
                Some(observer)
            },
        }
    }

    /// The events that wait for `observer`, oldest first; the observer has
    /// none afterwards. An observer that is not registered has no events.
    pub fn take_events(&mut self, observer: u64) -> (r: Vec<SysEvent>)
        requires
            old(self).wf(),
        ensures
            final(self).wf(),
            final(self)@ == emptied(old(self)@, observer),
            is_registered(old(self)@, observer) ==> event_views(r@) == old(self)@[observer_index(
                old(self)@,
                observer,
            )].inbox,
            !is_registered(old(self)@, observer) ==> r@.len() == 0,
    {
        let ghost before = self@;
        let mut taken: Vec<SysEvent> = Vec::new();
        match self.position(observer) {
            None => {
                assert(self@ =~= emptied(before, observer));
            },
            Some(i) => {
                core::mem::swap(&mut self.observers[i].inbox, &mut taken);
                proof {
                    assert(event_views(Seq::<SysEvent>::empty()) =~= Seq::<SysEventView>::empty());
                    assert forall|k: int| 0 <= k < before.len() implies #[trigger] self@[k]
                        == emptied(before, observer)[k] by {
                        if k != i {
                            assert(before[k].id != before[i as int].id);
                        }
                    }
                    assert(self@ =~= emptied(before, observer));
                    assert forall|a: int, b: int|
                        0 <= a < self@.len() && 0 <= b < self@.len() && a != b implies (
                    #[trigger] self@[a]).id != (#[trigger] self@[b]).id by {
                        assert(before[a].id != before[b].id);
                    }
                }
            },
        }
        taken
    }
}

} // verus!
