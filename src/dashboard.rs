use vstd::prelude::*;
use crate::fuzzy::{FuzzySearch, strings_view, results_for, reclamp};
use crate::nt::{ConnectionStatus, NtUpdate};

verus! {

#[derive(Clone, Copy, Debug, PartialEq, Eq, Structural)]
pub enum Window {
    Main,
    FuzzySearch,
}

#[derive(Clone, Copy, Debug, PartialEq, Eq, Structural)]
pub enum WidgetType {
    Text,
}

/// A request for a display widget bound to a topic; where it goes on the grid
/// is decided by whoever draws it.
#[derive(Debug, Clone)]
pub struct Widget {
    pub topic: String,
    pub label: String,
    pub widget_type: WidgetType,
}

/// The state that the update loop owns and the picker reads.
pub struct App {
    pub mode: Window,
    pub fuzzy_search: FuzzySearch,
    pub available_topics: Vec<String>,
    pub topic_values: Vec<(String, String)>,
    pub connection_status: ConnectionStatus,
    pub widgets: Vec<Widget>,
}

pub open spec fn no_dups(s: Seq<Seq<char>>) -> bool {
    forall|i: int, j: int| 0 <= i < j < s.len() ==> s[i] != s[j]
}

pub open spec fn keys_view(s: Seq<(String, String)>) -> Seq<Seq<char>> {
    s.map_values(|p: (String, String)| p.0@)
}

/// The value map that a list of entries stands for; a later entry of a key wins.
pub open spec fn value_map(s: Seq<(String, String)>) -> Map<Seq<char>, Seq<char>>
    decreases s.len(),
{
    if s.len() == 0 {
        Map::empty()
    } else {
        value_map(s.drop_last()).insert(s.last().0@, s.last().1@)
    }
}

/// The topic list with `t` added at the end unless it is already there.
pub open spec fn add_topic(ts: Seq<Seq<char>>, t: Seq<char>) -> Seq<Seq<char>> {
    if ts.contains(t) {
        ts
    } else {
        ts.push(t)
    }
}

pub open spec fn topics_after(ts: Seq<Seq<char>>, u: NtUpdate) -> Seq<Seq<char>> {
    match u {
        NtUpdate::KV(t, _) => add_topic(ts, t@),
        NtUpdate::ConnectionStatus(_) => ts,
    }
}

pub open spec fn values_after(vs: Map<Seq<char>, Seq<char>>, u: NtUpdate) -> Map<Seq<char>, Seq<char>> {
    match u {
        NtUpdate::KV(t, v) => vs.insert(t@, v@),
        NtUpdate::ConnectionStatus(_) => vs,
    }
}

pub open spec fn status_after(s: ConnectionStatus, u: NtUpdate) -> ConnectionStatus {
    match u {
        NtUpdate::KV(_, _) => s,
        NtUpdate::ConnectionStatus(c) => c,
    }
}

/// Applying the same update twice leaves the topics and the values as applying it once.
pub proof fn lemma_update_idempotent(ts: Seq<Seq<char>>, vs: Map<Seq<char>, Seq<char>>, u: NtUpdate)
    ensures
        topics_after(topics_after(ts, u), u) == topics_after(ts, u),
        values_after(values_after(vs, u), u) == values_after(vs, u),
{
    if let NtUpdate::KV(t, v) = u {
        if !ts.contains(t@) {
            assert(ts.push(t@)[ts.len() as int] == t@);
        }
        assert(vs.insert(t@, v@).insert(t@, v@) =~= vs.insert(t@, v@));
    }
}

proof fn lemma_value_map_update(s: Seq<(String, String)>, i: int, e: (String, String))
    requires
        0 <= i < s.len(),
        no_dups(keys_view(s)),
        s[i].0@ == e.0@,
    ensures
        value_map(s.update(i, e)) == value_map(s).insert(e.0@, e.1@),
    decreases s.len(),
{
    let u = s.update(i, e);
    assert(u.drop_last() =~= if i == s.len() - 1 { s.drop_last() } else { s.drop_last().update(i, e) });
    if i < s.len() - 1 {
        let d = s.drop_last();
        assert(keys_view(d) =~= keys_view(s).drop_last());
        lemma_value_map_update(d, i, e);
        assert(keys_view(s)[i] != keys_view(s)[s.len() - 1]);
        assert(value_map(u) =~= value_map(s).insert(e.0@, e.1@));
    } else {
        assert(value_map(u) =~= value_map(s).insert(e.0@, e.1@));
    }
}

pub open spec fn topics_after_all(ts: Seq<Seq<char>>, us: Seq<NtUpdate>) -> Seq<Seq<char>>
    decreases us.len(),
{
    if us.len() == 0 {
        ts
    } else {
        topics_after(topics_after_all(ts, us.drop_last()), us.last())
    }
}

pub open spec fn values_after_all(vs: Map<Seq<char>, Seq<char>>, us: Seq<NtUpdate>) -> Map<Seq<char>, Seq<char>>
    decreases us.len(),
{
    if us.len() == 0 {
        vs
    } else {
        values_after(values_after_all(vs, us.drop_last()), us.last())
    }
}

pub open spec fn status_after_all(c: ConnectionStatus, us: Seq<NtUpdate>) -> ConnectionStatus
    decreases us.len(),
{
    if us.len() == 0 {
        c
    } else {
        status_after(status_after_all(c, us.drop_last()), us.last())
    }
}

fn copy_update(u: &NtUpdate) -> (r: NtUpdate)
    ensures
        r == *u,
{
    match u {
        NtUpdate::KV(t, v) => NtUpdate::KV(t.clone(), v.clone()),
        NtUpdate::ConnectionStatus(c) => NtUpdate::ConnectionStatus(*c),
    }
}

impl App {
    pub open spec fn wf(&self) -> bool {
        &&& no_dups(strings_view(self.available_topics@))
        &&& no_dups(keys_view(self.topic_values@))
        &&& self.fuzzy_search.wf()
    }

    pub open spec fn topics(&self) -> Seq<Seq<char>> {
        strings_view(self.available_topics@)
    }

    pub open spec fn values(&self) -> Map<Seq<char>, Seq<char>> {
        value_map(self.topic_values@)
    }

    pub fn new() -> (r: Self)
        ensures
            r.wf(),
            r.mode == Window::Main,
            r.topics().len() == 0,
            r.values() == Map::<Seq<char>, Seq<char>>::empty(),
            r.connection_status == ConnectionStatus::Disconnected,
            r.widgets@.len() == 0,
    {
        App {
            mode: Window::Main,
            fuzzy_search: FuzzySearch::new(),
            available_topics: Vec::new(),
            topic_values: Vec::new(),
            connection_status: ConnectionStatus::Disconnected,
            widgets: Vec::new(),
        }
    }

    /// Opens the picker: an empty query, every known topic, the cursor on the
    /// first one (none when there is no topic).
    pub fn enter_fuzzy_search(&mut self)
        requires
            old(self).wf(),
        ensures
            final(self).wf(),
            final(self).mode == Window::FuzzySearch,
            final(self).fuzzy_search.input@.len() == 0,
            strings_view(final(self).fuzzy_search.matches@) == old(self).topics(),
            final(self).fuzzy_search.selected == (if old(self).topics().len() > 0 { Some(0usize) } else { None }),
            final(self).available_topics == old(self).available_topics,
            final(self).topic_values == old(self).topic_values,
            final(self).widgets == old(self).widgets,
            final(self).connection_status == old(self).connection_status,
    {
        self.mode = Window::FuzzySearch;
        self.fuzzy_search.input = String::new();
        self.fuzzy_search.selected = Some(0);
        self.fuzzy_search.update_matches(&self.available_topics);
    }

    /// Closes the picker and clears its query.
    pub fn exit_fuzzy_search(&mut self)
        requires
            old(self).wf(),
        ensures
            final(self).wf(),
            final(self).mode == Window::Main,
            final(self).fuzzy_search.input@.len() == 0,
            final(self).fuzzy_search.matches == old(self).fuzzy_search.matches,
            final(self).fuzzy_search.selected == old(self).fuzzy_search.selected,
            final(self).available_topics == old(self).available_topics,
            final(self).topic_values == old(self).topic_values,
            final(self).widgets == old(self).widgets,
            final(self).connection_status == old(self).connection_status,
    {
        self.mode = Window::Main;
        self.fuzzy_search.input = String::new();
    }

    /// Commits the picker's selection: asks for a text widget on the selected
    /// topic, labelled with it, closes the picker and returns the topic; with
    /// nothing selected, changes nothing and returns none.
    pub fn handle_search_selection(&mut self) -> (r: Option<String>)
        requires
            old(self).wf(),
        ensures
            final(self).wf(),
            match old(self).fuzzy_search.selected {
                Some(i) if i < old(self).fuzzy_search.matches@.len() => {
                    let t = old(self).fuzzy_search.matches@[i as int];
                    &&& r == Some(t)
                    &&& final(self).widgets@.len() == old(self).widgets@.len() + 1
                    &&& final(self).widgets@.drop_last() == old(self).widgets@
                    &&& final(self).widgets@.last().topic@ == t@
                    &&& final(self).widgets@.last().label@ == t@
                    &&& final(self).widgets@.last().widget_type == WidgetType::Text
                    &&& final(self).mode == Window::Main
                    &&& final(self).fuzzy_search.input@.len() == 0
                },
                _ => r is None && *final(self) == *old(self),
            },
            final(self).available_topics == old(self).available_topics,
            final(self).topic_values == old(self).topic_values,
            final(self).connection_status == old(self).connection_status,
    {
        let chosen = match self.fuzzy_search.get_selected() {
            Some(t) => Some(t.clone()),
            None => None,
        };
        match chosen {
            Some(selected_topic) => {
                let widget = Widget {
                    topic: selected_topic.clone(),
                    label: selected_topic.clone(),
                    widget_type: WidgetType::Text,
                };
                self.widgets.push(widget);
                self.exit_fuzzy_search();
                Some(selected_topic)
            },
            None => None,
        }
    }

    /// Adds `topic` to the known topics unless it is there already.
    fn add_available_topic(&mut self, topic: &String)
        requires
            no_dups(strings_view(old(self).available_topics@)),
        ensures
            no_dups(strings_view(final(self).available_topics@)),
            strings_view(final(self).available_topics@) == add_topic(strings_view(old(self).available_topics@), topic@),
            final(self).topic_values == old(self).topic_values,
            final(self).fuzzy_search == old(self).fuzzy_search,
            final(self).mode == old(self).mode,
            final(self).widgets == old(self).widgets,
            final(self).connection_status == old(self).connection_status,
    {
        let ghost ts = strings_view(self.available_topics@);
        let mut i: usize = 0;
        while i < self.available_topics.len()
            invariant
                i <= self.available_topics@.len(),
                ts == strings_view(self.available_topics@),
                *self == *old(self),
                no_dups(ts),
                forall|k: int| 0 <= k < i ==> ts[k] != topic@,
            decreases self.available_topics@.len() - i,
        {
            if self.available_topics[i] == *topic {
                assert(ts.contains(topic@)) by { assert(ts[i as int] == topic@); }
                return;
            }
            i = i + 1;
        }
        let ghost before = self.available_topics@;
        self.available_topics.push(topic.clone());
        assert(strings_view(self.available_topics@) =~= ts.push(topic@)) by {
            assert(self.available_topics@ == before.push(*topic));
        }
    }

    /// Records `value` as the last known value of `topic`.
    fn set_topic_value(&mut self, topic: String, value: String)
        requires
            no_dups(keys_view(old(self).topic_values@)),
        ensures
            no_dups(keys_view(final(self).topic_values@)),
            value_map(final(self).topic_values@) == value_map(old(self).topic_values@).insert(topic@, value@),
            final(self).available_topics == old(self).available_topics,
            final(self).fuzzy_search == old(self).fuzzy_search,
            final(self).mode == old(self).mode,
            final(self).widgets == old(self).widgets,
            final(self).connection_status == old(self).connection_status,
    {
        let ghost s = self.topic_values@;
        let mut i: usize = 0;
        while i < self.topic_values.len()
            invariant
                i <= self.topic_values@.len(),
                s == self.topic_values@,
                *self == *old(self),
                no_dups(keys_view(s)),
                forall|k: int| 0 <= k < i ==> keys_view(s)[k] != topic@,
            decreases self.topic_values@.len() - i,
        {
            if self.topic_values[i].0 == topic {
                let e = (topic, value);
                proof {
                    lemma_value_map_update(s, i as int, e);
                }
                self.topic_values.set(i, e);
                assert(keys_view(self.topic_values@) =~= keys_view(s));
                return;
            }
            i = i + 1;
        }
        let e = (topic, value);
        self.topic_values.push(e);
        assert(self.topic_values@.drop_last() =~= s);
        assert(keys_view(self.topic_values@) =~= keys_view(s).push(e.0@));
    }

    /// Applies one update: a value makes its topic known and records the value;
    /// a status replaces the shown connection status.
    pub fn apply_update(&mut self, update: NtUpdate)
        requires
            old(self).wf(),
        ensures
            final(self).wf(),
            final(self).topics() == topics_after(old(self).topics(), update),
            final(self).values() == values_after(old(self).values(), update),
            final(self).connection_status == status_after(old(self).connection_status, update),
            final(self).fuzzy_search == old(self).fuzzy_search,
            final(self).mode == old(self).mode,
            final(self).widgets == old(self).widgets,
    {
        match update {
            NtUpdate::KV(topic, value) => {
                self.add_available_topic(&topic);
                self.set_topic_value(topic, value);
            },
            NtUpdate::ConnectionStatus(status) => {
                self.connection_status = status;
            },
        }
    }

    /// Applies a batch of updates in order, then refreshes the picker's results
    /// against the new topics if it is open.
    pub fn apply_updates(&mut self, updates: &Vec<NtUpdate>)
        requires
            old(self).wf(),
        ensures
            final(self).wf(),
            final(self).topics() == topics_after_all(old(self).topics(), updates@),
            final(self).values() == values_after_all(old(self).values(), updates@),
            final(self).connection_status == status_after_all(old(self).connection_status, updates@),
            final(self).mode == old(self).mode,
            final(self).widgets == old(self).widgets,
            final(self).fuzzy_search.input == old(self).fuzzy_search.input,
            old(self).mode == Window::FuzzySearch ==> {
                &&& strings_view(final(self).fuzzy_search.matches@)
                    == results_for(old(self).fuzzy_search.input@, final(self).topics())
                &&& final(self).fuzzy_search.selected
                    == reclamp(old(self).fuzzy_search.selected, final(self).fuzzy_search.matches@.len())
            },
            old(self).mode != Window::FuzzySearch ==> final(self).fuzzy_search == old(self).fuzzy_search,
    {
        let mut i: usize = 0;
        while i < updates.len()
            invariant
                i <= updates@.len(),
                self.wf(),
                self.topics() == topics_after_all(old(self).topics(), updates@.take(i as int)),
                self.values() == values_after_all(old(self).values(), updates@.take(i as int)),
                self.connection_status == status_after_all(old(self).connection_status, updates@.take(i as int)),
                self.mode == old(self).mode,
                self.widgets == old(self).widgets,
                self.fuzzy_search == old(self).fuzzy_search,
            decreases updates@.len() - i,
        {
            assert(updates@.take(i + 1).drop_last() =~= updates@.take(i as int));
            let u = copy_update(&updates[i]);
            self.apply_update(u);
            i = i + 1;
        }
        assert(updates@.take(i as int) =~= updates@);
        if self.mode == Window::FuzzySearch {
            self.fuzzy_search.update_matches(&self.available_topics);
        }
    }
}

} // verus!
