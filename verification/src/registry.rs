//! Which ports are forwarded, which the user does not want, and which to ask about.

use crate::ports::{string_views, PortInfo};
use crate::text::same_text;
use vstd::prelude::*;
use vstd::string::*;

verus! {

/// The ports with a running session and the ports that the user declined.
pub struct PortRegistry {
    active: Vec<String>,
    declined: Vec<String>,
}

/// The names of the ports with a running session and of those that the user declined.
pub struct RegistryView {
    pub active: Set<Seq<char>>,
    pub declined: Set<Seq<char>>,
}

impl RegistryView {
    /// True when the user is to be asked about the port `name`.
    pub open spec fn asks(self, name: Seq<char>) -> bool {
        !self.active.contains(name) && !self.declined.contains(name)
    }

    /// After the answer of the user about the port `name`.
    pub open spec fn answered(self, name: Seq<char>, accepted: bool) -> RegistryView {
        if accepted {
            RegistryView { active: self.active.insert(name), ..self }
        } else {
            RegistryView { declined: self.declined.insert(name), ..self }
        }
    }

    /// After the session of the port `name` has ended.
    pub open spec fn ended(self, name: Seq<char>) -> RegistryView {
        RegistryView { active: self.active.remove(name), ..self }
    }

    /// No port is both forwarded and declined.
    pub open spec fn consistent(self) -> bool {
        self.active.disjoint(self.declined)
    }
}

/// The names in a list.
spec fn names(list: Seq<String>) -> Set<Seq<char>> {
    string_views(list).to_set()
}

impl View for PortRegistry {
    type V = RegistryView;

    closed spec fn view(&self) -> RegistryView {
        RegistryView { active: names(self.active@), declined: names(self.declined@) }
    }
}

/// Where `name` stands in `list`.
fn position(list: &Vec<String>, name: &str) -> (at: Option<usize>)
    ensures
        match at {
            Some(i) => i < list.len() && list@[i as int]@ == name@ && names(list@).contains(name@),
            None => !names(list@).contains(name@),
        },
{
    for i in 0..list.len()
        invariant
            forall|j: int| 0 <= j < i ==> (#[trigger] list@[j])@ != name@,
    {
        if same_text(list[i].as_str(), name) {
            assert(string_views(list@)[i as int] == name@);
            return Some(i);
        }
    }
    proof {
        if names(list@).contains(name@) {
            let j = choose|j: int|
                0 <= j < string_views(list@).len() && string_views(list@)[j] == name@;
            assert(list@[j]@ == name@);
        }
    }
    None
}

/// Adds `name` to `list`.
fn put_in(list: &mut Vec<String>, name: &str)
    requires
        string_views(old(list)@).no_duplicates(),
        !names(old(list)@).contains(name@),
    ensures
        string_views(final(list)@).no_duplicates(),
        names(final(list)@) == names(old(list)@).insert(name@),
{
    let ghost before = string_views(list@);
    list.push(name.to_string());
    proof {
        let after = string_views(list@);
        assert(after =~= before.push(name@));
        assert forall|n: Seq<char>| after.to_set().contains(n) <==> before.to_set().insert(
            name@,
        ).contains(n) by {
            if before.contains(n) {
                let j = choose|j: int| 0 <= j < before.len() && before[j] == n;
                assert(after[j] == n);
            }
            if n == name@ {
                assert(after[before.len() as int] == n);
            }
        }
        assert(after.to_set() =~= before.to_set().insert(name@));
        assert forall|i: int, j: int|
            0 <= i < after.len() && 0 <= j < after.len() && i != j implies after[i]
            != after[j] by {
            if i == before.len() {
                assert(before.contains(before[j]));
            } else if j == before.len() {
                assert(before.contains(before[i]));
            }
        }
    }
}

/// Takes `name` out of `list`.
fn take_out(list: &mut Vec<String>, name: &str)
    requires
        string_views(old(list)@).no_duplicates(),
    ensures
        string_views(final(list)@).no_duplicates(),
        names(final(list)@) == names(old(list)@).remove(name@),
{
    let ghost before = string_views(list@);
    match position(list, name) {
        Some(i) => {
            list.remove(i);
            proof {
                let after = string_views(list@);
                assert(after =~= before.remove(i as int));
                assert forall|n: Seq<char>| after.to_set().contains(n) <==> before.to_set().remove(
                    name@,
                ).contains(n) by {
                    if after.contains(n) {
                        let j = choose|j: int| 0 <= j < after.len() && after[j] == n;
                        let k = if j < i {
                            j
                        } else {
                            j + 1
                        };
                        assert(before[k] == n);
                        assert(before[i as int] == name@);
                    }
                    if before.contains(n) && n != name@ {
                        let k = choose|k: int| 0 <= k < before.len() && before[k] == n;
                        let j = if k < i {
                            k
                        } else {
                            k - 1
                        };
                        assert(after[j] == n);
                    }
                }
                assert(after.to_set() =~= before.to_set().remove(name@));
            }
        },
        None => {
            assert(before.to_set() =~= before.to_set().remove(name@));
        },
    }
}

impl PortRegistry {
    /// No port is listed twice, and none is both forwarded and declined.
    pub closed spec fn wf(self) -> bool {
        &&& string_views(self.active@).no_duplicates()
        &&& string_views(self.declined@).no_duplicates()
        &&& self@.consistent()
    }

    /// No port is forwarded, and none was declined.
    pub fn new() -> (registry: PortRegistry)
        ensures
            registry.wf(),
            registry@.active == Set::<Seq<char>>::empty(),
            registry@.declined == Set::<Seq<char>>::empty(),
    {
        let registry = PortRegistry { active: Vec::new(), declined: Vec::new() };
        assert(registry@.active =~= Set::<Seq<char>>::empty());
        assert(registry@.declined =~= Set::<Seq<char>>::empty());
        registry
    }

    /// Tests whether the user is to be asked about the port `name`.
    pub fn needs_prompt(&self, name: &str) -> (r: bool)
        ensures
            r == self@.asks(name@),
    {
        position(&self.active, name).is_none() && position(&self.declined, name).is_none()
    }

    /// The first of `ports` from `from` on about which the user is to be asked.
    pub fn next_prompt(&self, ports: &Vec<PortInfo>, from: usize) -> (at: Option<usize>)
        ensures
            match at {
                Some(i) => {
                    &&& from <= i < ports.len()
                    &&& self@.asks(ports@[i as int]@.name)
                    &&& forall|j: int| from <= j < i ==> !self@.asks((#[trigger] ports@[j])@.name)
                },
                None => forall|j: int|
                    from <= j < ports.len() ==> !self@.asks((#[trigger] ports@[j])@.name),
            },
    {
        let mut i: usize = from;
        while i < ports.len()
            invariant
                from <= i,
                forall|j: int| from <= j < i && j < ports.len() ==> !self@.asks(
                    (#[trigger] ports@[j])@.name,
                ),
            decreases ports.len() - i,
        {
            if self.needs_prompt(ports[i].name.as_str()) {
                return Some(i);
            }
            i = i + 1;
        }
        None
    }

    /// The user answered about the port `name`; says whether a session is to be started.
    pub fn answered(&mut self, name: &str, accepted: bool) -> (start: bool)
        requires
            old(self).wf(),
            old(self)@.asks(name@),
        ensures
            final(self).wf(),
            final(self)@ == old(self)@.answered(name@, accepted),
            start == accepted,
    {
        if accepted {
            put_in(&mut self.active, name);
        } else {
            put_in(&mut self.declined, name);
        }
        accepted
    }

    /// The session of the port `name` has ended.
    pub fn session_ended(&mut self, name: &str)
        requires
            old(self).wf(),
        ensures
            final(self).wf(),
            final(self)@ == old(self)@.ended(name@),
    {
        take_out(&mut self.active, name);
    }
}

/// What is said when the ports cannot be listed for `reason`.
pub fn list_error_text(reason: &str) -> (text: String)
    ensures
        text@ == "枚举串口失败："@ + reason@,
{
    let mut text = "枚举串口失败：".to_string();
    text.append(reason);
    text
}

// ---------------------------------------------------------------------------
// What holds over time
// ---------------------------------------------------------------------------

/// What happens to the registry.
pub enum RegistryChange {
    Answered { name: Seq<char>, accepted: bool },
    Ended { name: Seq<char> },
}

/// After one change.
pub open spec fn changed(v: RegistryView, change: RegistryChange) -> RegistryView {
    match change {
        RegistryChange::Answered { name, accepted } => v.answered(name, accepted),
        RegistryChange::Ended { name } => v.ended(name),
    }
}

/// After a sequence of changes.
pub open spec fn after_changes(v: RegistryView, changes: Seq<RegistryChange>) -> RegistryView
    decreases changes.len(),
{
    if changes.len() == 0 {
        v
    } else {
        changed(after_changes(v, changes.drop_last()), changes.last())
    }
}

/// True when the user only answers what is asked.
pub open spec fn only_asked(v: RegistryView, changes: Seq<RegistryChange>) -> bool {
    forall|i: int|
        0 <= i < changes.len() ==> (#[trigger] changes[i] matches RegistryChange::Answered {
            name,
            ..
        } ==> after_changes(v, changes.take(i)).asks(name))
}

/// A port that was declined stays declined, and the user is never asked about it again.
pub proof fn law_declined_ports_stay_declined(
    v: RegistryView,
    changes: Seq<RegistryChange>,
    name: Seq<char>,
)
    requires
        v.declined.contains(name),
    ensures
        after_changes(v, changes).declined.contains(name),
        !after_changes(v, changes).asks(name),
    decreases changes.len(),
{
    if changes.len() > 0 {
        law_declined_ports_stay_declined(v, changes.drop_last(), name);
    }
}

/// An answer or the end of a session touches no other port, and puts the port itself where
/// it belongs.
pub proof fn law_changes_touch_one_port(
    v: RegistryView,
    name: Seq<char>,
    accepted: bool,
    other: Seq<char>,
)
    ensures
        v.answered(name, true).active.contains(name),
        v.answered(name, false).declined.contains(name),
        !v.ended(name).active.contains(name),
        v.answered(name, true).declined.contains(name) == v.declined.contains(name),
        v.answered(name, false).active.contains(name) == v.active.contains(name),
        v.ended(name).declined.contains(name) == v.declined.contains(name),
        v.asks(name) <==> !v.active.contains(name) && !v.declined.contains(name),
        other != name ==> {
            &&& v.answered(name, accepted).active.contains(other) == v.active.contains(other)
            &&& v.answered(name, accepted).declined.contains(other) == v.declined.contains(other)
            &&& v.ended(name).active.contains(other) == v.active.contains(other)
            &&& v.ended(name).declined.contains(other) == v.declined.contains(other)
        },
{
}

/// Whatever the answer was, the user is not asked again right away; about a port that was
/// accepted the user is asked again once its session has ended. Other ports are not affected.
pub proof fn law_answered_ports_are_not_asked_again(v: RegistryView, name: Seq<char>, accepted: bool)
    requires
        v.asks(name),
    ensures
        !v.answered(name, accepted).asks(name),
        v.answered(name, accepted).ended(name).asks(name) <==> accepted,
        forall|other: Seq<char>|
            other != name ==> v.answered(name, accepted).asks(other) == #[trigger] v.asks(other),
{
}

/// What holds of all changes holds of those before the last.
proof fn lemma_only_asked_before(v: RegistryView, changes: Seq<RegistryChange>)
    requires
        changes.len() > 0,
        only_asked(v, changes),
    ensures
        only_asked(v, changes.drop_last()),
        changes.last() matches RegistryChange::Answered { name, .. } ==> after_changes(
            v,
            changes.drop_last(),
        ).asks(name),
{
    let before = changes.drop_last();
    assert forall|i: int| 0 <= i < before.len() implies (
    #[trigger] before[i] matches RegistryChange::Answered { name, .. } ==> after_changes(
        v,
        before.take(i),
    ).asks(name)) by {
        assert(before[i] == changes[i]);
        assert(before.take(i) =~= changes.take(i));
    }
    assert(changes.take(changes.len() - 1) =~= before);
    assert(changes[changes.len() - 1] == changes.last());
}

/// A port that was accepted stays forwarded, and the user is not asked about it, until its
/// session ends, whatever happens to other ports; then the user is asked about it again.
pub proof fn law_accepted_ports_are_asked_again_when_ended(
    v: RegistryView,
    name: Seq<char>,
    changes: Seq<RegistryChange>,
)
    requires
        v.asks(name),
        only_asked(v.answered(name, true), changes),
        !changes.contains(RegistryChange::Ended { name }),
    ensures
        after_changes(v.answered(name, true), changes).active.contains(name),
        !after_changes(v.answered(name, true), changes).asks(name),
        after_changes(
            v.answered(name, true),
            changes.push(RegistryChange::Ended { name }),
        ).asks(name),
    decreases changes.len(),
{
    let start = v.answered(name, true);
    let ended = changes.push(RegistryChange::Ended { name });
    assert(ended.drop_last() =~= changes);
    if changes.len() > 0 {
        let before = changes.drop_last();
        lemma_only_asked_before(start, changes);
        if before.contains(RegistryChange::Ended { name }) {
            let i = choose|i: int|
                0 <= i < before.len() && before[i] == (RegistryChange::Ended { name });
            assert(changes[i] == before[i]);
        }
        law_accepted_ports_are_asked_again_when_ended(v, name, before);
        assert(before.push(RegistryChange::Ended { name }).drop_last() =~= before);
        assert(changes[changes.len() - 1] == changes.last());
    }
}

/// The names about which the user is asked in one scan that lists `listed`, when the user
/// answers by `accepts`.
pub open spec fn asked_in_scan(
    v: RegistryView,
    listed: Seq<Seq<char>>,
    accepts: spec_fn(Seq<char>) -> bool,
) -> Seq<Seq<char>>
    decreases listed.len(),
{
    if listed.len() == 0 {
        Seq::empty()
    } else if v.asks(listed[0]) {
        seq![listed[0]] + asked_in_scan(
            v.answered(listed[0], accepts(listed[0])),
            listed.drop_first(),
            accepts,
        )
    } else {
        asked_in_scan(v, listed.drop_first(), accepts)
    }
}

/// In one scan the user is asked about every listed port that is neither forwarded nor
/// declined, about no other port, and about none twice.
pub proof fn law_scan_asks_once(
    v: RegistryView,
    listed: Seq<Seq<char>>,
    accepts: spec_fn(Seq<char>) -> bool,
)
    ensures
        asked_in_scan(v, listed, accepts).no_duplicates(),
        forall|name: Seq<char>| #[trigger]
            asked_in_scan(v, listed, accepts).contains(name) <==> listed.contains(name) && v.asks(
                name,
            ),
    decreases listed.len(),
{
    let asked = asked_in_scan(v, listed, accepts);
    if listed.len() > 0 {
        let first = listed[0];
        let rest = listed.drop_first();
        assert(listed =~= seq![first] + rest);
        assert forall|name: Seq<char>| listed.contains(name) <==> name == first || rest.contains(
            name,
        ) by {
            if rest.contains(name) {
                let i = choose|i: int| 0 <= i < rest.len() && rest[i] == name;
                assert(listed[i + 1] == name);
            }
            if listed.contains(name) && name != first {
                let i = choose|i: int| 0 <= i < listed.len() && listed[i] == name;
                assert(rest[i - 1] == name);
            }
        }
        if v.asks(first) {
            let next = v.answered(first, accepts(first));
            law_scan_asks_once(next, rest, accepts);
            let more = asked_in_scan(next, rest, accepts);
            law_answered_ports_are_not_asked_again(v, first, accepts(first));
            assert(!more.contains(first));
            assert forall|name: Seq<char>| #[trigger] asked.contains(name) <==> listed.contains(
                name,
            ) && v.asks(name) by {
                if more.contains(name) {
                    let i = choose|i: int| 0 <= i < more.len() && more[i] == name;
                    assert(asked[i + 1] == name);
                }
                if asked.contains(name) && name != first {
                    let i = choose|i: int| 0 <= i < asked.len() && asked[i] == name;
                    assert(more[i - 1] == name);
                }
                assert(asked[0] == first);
            }
            assert forall|i: int, j: int|
                0 <= i < asked.len() && 0 <= j < asked.len() && i != j implies asked[i]
                != asked[j] by {
                if i == 0 {
                    assert(more.contains(more[j - 1]));
                } else if j == 0 {
                    assert(more.contains(more[i - 1]));
                } else {
                    assert(more[i - 1] != more[j - 1]);
                }
            }
        } else {
            law_scan_asks_once(v, rest, accepts);
        }
    }
}

/// No port ever is both forwarded and declined.
pub proof fn law_registry_stays_consistent(v: RegistryView, changes: Seq<RegistryChange>)
    requires
        v.consistent(),
        only_asked(v, changes),
    ensures
        after_changes(v, changes).consistent(),
    decreases changes.len(),
{
    if changes.len() > 0 {
        lemma_only_asked_before(v, changes);
        law_registry_stays_consistent(v, changes.drop_last());
    }
}

} // verus!
