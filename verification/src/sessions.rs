//! Bookkeeping of loaded inference sessions: one slot per model id, filled
//! the first time the model is needed, reported for memory use, and emptied
//! on request.
use vstd::prelude::*;
use crate::text::{chars_of, chars_equal, string_from_chars, extend_str, strings_view};

verus! {

/// The map from keys to values that a list of distinct-key entries describes.
pub open spec fn map_of<V>(entries: Seq<(Seq<char>, V)>) -> Map<Seq<char>, V>
    decreases entries.len(),
{
    if entries.len() == 0 {
        Map::empty()
    } else {
        map_of(entries.drop_last()).insert(entries.last().0, entries.last().1)
    }
}

/// Whether the keys of `entries` are distinct.
pub open spec fn distinct_keys<V>(entries: Seq<(Seq<char>, V)>) -> bool {
    forall|i: int, j: int| 0 <= i < j < entries.len() ==> #[trigger] entries[i].0 != #[trigger] entries[j].0
}

proof fn lemma_map_of_lookup<V>(entries: Seq<(Seq<char>, V)>, k: Seq<char>)
    requires
        distinct_keys(entries),
    ensures
        map_of(entries).contains_key(k) <==> exists|i: int| 0 <= i < entries.len() && entries[i].0 == k,
        forall|i: int| 0 <= i < entries.len() && entries[i].0 == k ==> map_of(entries)[k] == entries[i].1,
    decreases entries.len(),
{
    if entries.len() > 0 {
        let init = entries.drop_last();
        assert(distinct_keys(init));
        lemma_map_of_lookup(init, k);
        if exists|i: int| 0 <= i < init.len() && init[i].0 == k {
            let i = choose|i: int| 0 <= i < init.len() && init[i].0 == k;
            assert(entries[i].0 == k);
        }
        if exists|i: int| 0 <= i < entries.len() && entries[i].0 == k {
            let i = choose|i: int| 0 <= i < entries.len() && entries[i].0 == k;
            if i < entries.len() - 1 {
                assert(init[i].0 == k);
            }
        }
    }
}

proof fn lemma_map_of_ext<V>(entries: Seq<(Seq<char>, V)>, m: Map<Seq<char>, V>)
    requires
        distinct_keys(entries),
        forall|k: Seq<char>| m.contains_key(k) <==> exists|i: int| 0 <= i < entries.len() && entries[i].0 == k,
        forall|i: int| 0 <= i < entries.len() ==> m.contains_key(#[trigger] entries[i].0) && m[entries[i].0] == entries[i].1,
    ensures
        map_of(entries) == m,
{
    assert forall|k: Seq<char>| #[trigger] map_of(entries).contains_key(k) <==> m.contains_key(k) by {
        lemma_map_of_lookup(entries, k);
    }
    assert forall|k: Seq<char>| map_of(entries).contains_key(k) implies #[trigger] map_of(entries)[k] == m[k] by {
        lemma_map_of_lookup(entries, k);
        let i = choose|i: int| 0 <= i < entries.len() && entries[i].0 == k;
    }
    assert(map_of(entries) =~= m);
}

/// The views of registry slots.
pub open spec fn slot_views<S>(slots: Seq<(String, Option<(S, usize)>)>) -> Seq<(Seq<char>, Option<(S, usize)>)> {
    slots.map_values(|e: (String, Option<(S, usize)>)| (e.0@, e.1))
}

/// Memory use of a slot: that of its session, 0 while none is loaded.
pub open spec fn slot_memory<S>(v: Option<(S, usize)>) -> usize {
    match v {
        Some((_, m)) => m,
        None => 0,
    }
}

/// Sum of the second components.
pub open spec fn sum_memory(entries: Seq<(Seq<char>, usize)>) -> int
    decreases entries.len(),
{
    if entries.len() == 0 {
        0
    } else {
        sum_memory(entries.drop_last()) + entries.last().1
    }
}

/// The sessions known to the manager: for each model id that was asked for,
/// the loaded session with its memory use, or nothing while it is not loaded.
pub struct SessionRegistry<S> {
    slots: Vec<(String, Option<(S, usize)>)>,
}

/// What the manager does to serve a request for a model's session.
pub enum LoadStep {
    /// The session is loaded already.
    Loaded,
    /// Load it with the backend at this index of the registered backends.
    LoadWith(usize),
    /// No backend can serve the request.
    Fail(String),
}

impl<S> SessionRegistry<S> {
    /// The slots, keyed by model id.
    pub closed spec fn slots_view(&self) -> Seq<(Seq<char>, Option<(S, usize)>)> {
        slot_views(self.slots@)
    }

    /// Model id to slot content.
    pub open spec fn view_map(&self) -> Map<Seq<char>, Option<(S, usize)>> {
        map_of(self.slots_view())
    }

    /// Slot keys are distinct.
    pub closed spec fn wf(&self) -> bool {
        distinct_keys(self.slots_view())
    }

    /// The memory report: each model id with its session's memory use.
    pub closed spec fn report_view(&self) -> Seq<(Seq<char>, usize)> {
        self.slots_view().map_values(|e: (Seq<char>, Option<(S, usize)>)| (e.0, slot_memory(e.1)))
    }

    /// An empty registry.
    pub fn new() -> (r: Self)
        ensures
            r.wf(),
            r.view_map() == Map::<Seq<char>, Option<(S, usize)>>::empty(),
    {
        let r = SessionRegistry { slots: Vec::new() };
        assert(r.slots_view() =~= Seq::<(Seq<char>, Option<(S, usize)>)>::empty());
        r
    }

    fn find(&self, model_id: &str) -> (i: Option<usize>)
        requires
            self.wf(),
        ensures
            match i {
                Some(k) => k < self.slots@.len() && self.slots_view()[k as int].0 == model_id@,
                None => !self.view_map().contains_key(model_id@),
            },
    {
        let key = chars_of(model_id);
        let mut i: usize = 0;
        while i < self.slots.len()
            invariant
                i <= self.slots@.len(),
                key@ == model_id@,
                forall|j: int| 0 <= j < i ==> self.slots_view()[j].0 != model_id@,
            decreases self.slots@.len() - i,
        {
            let k = chars_of(self.slots[i].0.as_str());
            if chars_equal(k.as_slice(), key.as_slice()) {
                assert(self.slots_view()[i as int].0 == self.slots@[i as int].0@);
                return Some(i);
            }
            assert(self.slots_view()[i as int].0 == self.slots@[i as int].0@);
            i += 1;
        }
        proof {
            lemma_map_of_lookup(self.slots_view(), model_id@);
        }
        None
    }
}

/// The view of an optional string slice.
pub open spec fn opt_str_view(o: Option<&str>) -> Option<Seq<char>> {
    match o {
        Some(s) => Some(s@),
        None => None,
    }
}

/// The position of the first entry equal to `name`, if any.
pub open spec fn first_index(names: Seq<Seq<char>>, name: Seq<char>) -> Option<nat>
    decreases names.len(),
{
    if names.len() == 0 {
        None
    } else {
        match first_index(names.drop_last(), name) {
            Some(i) => Some(i),
            None => if names.last() == name {
                Some((names.len() - 1) as nat)
            } else {
                None
            },
        }
    }
}

/// Which registered backend serves a request: the first one with the requested
/// name, or the first one when no name is given; otherwise the error.
pub open spec fn spec_backend_choice(names: Seq<Seq<char>>, requested: Option<Seq<char>>) -> Result<nat, Seq<char>> {
    match requested {
        Some(n) => match first_index(names, n) {
            Some(i) => Ok(i),
            None => Err("Backend "@ + n + " not found"@),
        },
        None => if names.len() > 0 {
            Ok(0)
        } else {
            Err("No inference backends registered"@)
        },
    }
}

/// The plain form of a load step.
pub enum LoadDecision {
    Loaded,
    LoadWith(nat),
    Fail(Seq<char>),
}

/// How a request for `model_id` is served, given the slots and the backends.
pub open spec fn spec_load_step<S>(slots: Map<Seq<char>, Option<(S, usize)>>, model_id: Seq<char>, names: Seq<Seq<char>>, requested: Option<Seq<char>>) -> LoadDecision {
    if slots.contains_key(model_id) && slots[model_id] is Some {
        LoadDecision::Loaded
    } else {
        match spec_backend_choice(names, requested) {
            Ok(i) => LoadDecision::LoadWith(i),
            Err(m) => LoadDecision::Fail(m),
        }
    }
}

/// The plain form of an exec load step.
pub open spec fn step_view(s: LoadStep) -> LoadDecision {
    match s {
        LoadStep::Loaded => LoadDecision::Loaded,
        LoadStep::LoadWith(i) => LoadDecision::LoadWith(i as nat),
        LoadStep::Fail(m) => LoadDecision::Fail(m@),
    }
}

/// Picks the backend for a request (`SessionManager::get_or_load_session`'s choice).
pub fn choose_backend(names: &Vec<String>, requested: Option<&str>) -> (r: Result<usize, String>)
    ensures
        match (r, spec_backend_choice(strings_view(names@), opt_str_view(requested))) {
            (Ok(a), Ok(b)) => a == b,
            (Err(e), Err(m)) => e@ == m,
            _ => false,
        },
{
    let ghost nv = strings_view(names@);
    match requested {
        Some(name) => {
            let key = chars_of(name);
            let mut i: usize = 0;
            while i < names.len()
                invariant
                    i <= names@.len(),
                    nv == strings_view(names@),
                    key@ == name@,
                    opt_str_view(requested) == Some(name@),
                    first_index(nv.subrange(0, i as int), name@) is None,
                decreases names@.len() - i,
            {
                let ghost pre = nv.subrange(0, i + 1);
                assert(pre.drop_last() =~= nv.subrange(0, i as int));
                let k = chars_of(names[i].as_str());
                assert(nv[i as int] == names@[i as int]@);
                if chars_equal(k.as_slice(), key.as_slice()) {
                    proof {
                        assert(k@ == names@[i as int]@);
                        assert(nv[i as int] == name@);
                        lemma_first_index_prefix(nv, name@, i as int + 1);
                        assert(first_index(nv, name@) == Some(i as nat));
                        assert(opt_str_view(requested) == Some(name@));
                        assert(spec_backend_choice(nv, opt_str_view(requested)) == Ok::<nat, Seq<char>>(i as nat));
                    }
                    return Ok(i);
                }
                i += 1;
            }
            assert(nv.subrange(0, i as int) =~= nv);
            let mut msg: Vec<char> = Vec::new();
            extend_str(&mut msg, "Backend ");
            extend_str(&mut msg, name);
            extend_str(&mut msg, " not found");
            Err(string_from_chars(msg.as_slice()))
        },
        None => {
            if names.len() > 0 {
                Ok(0)
            } else {
                Err(string_from_chars(chars_of("No inference backends registered").as_slice()))
            }
        },
    }
}

proof fn lemma_first_index_prefix(names: Seq<Seq<char>>, name: Seq<char>, k: int)
    requires
        0 < k <= names.len(),
        first_index(names.subrange(0, k - 1), name) is None,
        names[k - 1] == name,
    ensures
        first_index(names, name) == Some((k - 1) as nat),
    decreases names.len() - k,
{
    let pre = names.subrange(0, k);
    assert(pre.drop_last() =~= names.subrange(0, k - 1));
    assert(first_index(pre, name) == Some((k - 1) as nat));
    lemma_first_index_extend(names, name, k);
}

proof fn lemma_first_index_extend(names: Seq<Seq<char>>, name: Seq<char>, k: int)
    requires
        0 <= k <= names.len(),
        first_index(names.subrange(0, k), name) is Some,
    ensures
        first_index(names, name) == first_index(names.subrange(0, k), name),
    decreases names.len() - k,
{
    if k < names.len() {
        let pre = names.subrange(0, k + 1);
        assert(pre.drop_last() =~= names.subrange(0, k));
        lemma_first_index_extend(names, name, k + 1);
    } else {
        assert(names.subrange(0, k) =~= names);
    }
}

impl<S> SessionRegistry<S> {
    /// The loaded session of a model, if any.
    pub fn session(&self, model_id: &str) -> (r: Option<&S>)
        requires
            self.wf(),
        ensures
            match r {
                Some(s) => self.view_map().contains_key(model_id@) && self.view_map()[model_id@] is Some
                    && (self.view_map()[model_id@]->0).0 == *s,
                None => !(self.view_map().contains_key(model_id@) && self.view_map()[model_id@] is Some),
            },
    {
        proof {
            lemma_map_of_lookup(self.slots_view(), model_id@);
        }
        match self.find(model_id) {
            Some(i) => {
                assert(self.slots_view()[i as int].1 == self.slots@[i as int].1);
                match &self.slots[i].1 {
                    Some((s, _)) => Some(s),
                    None => None,
                }
            },
            None => None,
        }
    }

    /// First part of serving a request for a model's session: makes sure the
    /// model has a slot, then says whether its session is loaded already, which
    /// backend should load it, or why none can.
    pub fn begin_load(&mut self, model_id: &str, backend_names: &Vec<String>, requested: Option<&str>) -> (step: LoadStep)
        requires
            old(self).wf(),
        ensures
            final(self).wf(),
            final(self).view_map() == if old(self).view_map().contains_key(model_id@) {
                old(self).view_map()
            } else {
                old(self).view_map().insert(model_id@, None)
            },
            step_view(step) == spec_load_step(
                old(self).view_map(),
                model_id@,
                strings_view(backend_names@),
                opt_str_view(requested),
            ),
            sum_memory(final(self).report_view()) == sum_memory(old(self).report_view()),
    {
        proof {
            lemma_map_of_lookup(self.slots_view(), model_id@);
        }
        match self.find(model_id) {
            Some(i) => {
                assert(self.slots_view()[i as int].1 == self.slots@[i as int].1);
                assert(self.slots_view()[i as int].0 == model_id@);
                if self.slots[i].1.is_some() {
                    return LoadStep::Loaded;
                }
            },
            None => {
                let ghost old_view = self.slots_view();
                let ghost old_report = self.report_view();
                let key = string_from_chars(chars_of(model_id).as_slice());
                self.slots.push((key, None));
                assert(self.slots_view() =~= old_view.push((model_id@, None)));
                assert(self.report_view() =~= old_report.push((model_id@, 0usize)));
                assert(self.report_view().drop_last() =~= old_report);
                assert(old_view.push((model_id@, None)).drop_last() =~= old_view);
                assert(self.wf()) by {
                    assert forall|a: int, b: int| 0 <= a < b < self.slots_view().len() implies #[trigger] self.slots_view()[a].0
                        != #[trigger] self.slots_view()[b].0 by {
                        if b == old_view.len() {
                            assert(old_view[a].0 != model_id@);
                        } else {
                            assert(old_view[a] == self.slots_view()[a]);
                            assert(old_view[b] == self.slots_view()[b]);
                        }
                    }
                }
            },
        }
        match choose_backend(backend_names, requested) {
            Ok(i) => LoadStep::LoadWith(i),
            Err(m) => LoadStep::Fail(m),
        }
    }

    /// Second part: stores the session a backend loaded for the model.
    pub fn record_loaded(&mut self, model_id: &str, session: S, memory: usize)
        requires
            old(self).wf(),
        ensures
            final(self).wf(),
            final(self).view_map() == old(self).view_map().insert(model_id@, Some((session, memory))),
    {
        let ghost old_view = self.slots_view();
        let ghost new_map = map_of(old_view).insert(model_id@, Some((session, memory)));
        proof {
            lemma_map_of_lookup(old_view, model_id@);
        }
        match self.find(model_id) {
            Some(i) => {
                let key = self.slots[i].0.clone();
                self.slots.set(i, (key, Some((session, memory))));
                assert(self.slots_view() =~= old_view.update(i as int, (model_id@, Some((session, memory)))));
                assert(self.wf()) by {
                    assert forall|a: int, b: int| 0 <= a < b < self.slots_view().len() implies #[trigger] self.slots_view()[a].0
                        != #[trigger] self.slots_view()[b].0 by {
                        assert(old_view[a].0 == self.slots_view()[a].0);
                        assert(old_view[b].0 == self.slots_view()[b].0);
                    }
                }
                proof {
                    let sv = self.slots_view();
                    assert forall|k: Seq<char>| new_map.contains_key(k) <==> exists|j: int| 0 <= j < sv.len() && sv[j].0 == k by {
                        lemma_map_of_lookup(old_view, k);
                        if exists|j: int| 0 <= j < old_view.len() && old_view[j].0 == k {
                            let j = choose|j: int| 0 <= j < old_view.len() && old_view[j].0 == k;
                            assert(sv[j].0 == k);
                        }
                        if exists|j: int| 0 <= j < sv.len() && sv[j].0 == k {
                            let j = choose|j: int| 0 <= j < sv.len() && sv[j].0 == k;
                            assert(old_view[j].0 == k);
                        }
                    }
                    assert forall|j: int| 0 <= j < sv.len() implies new_map.contains_key(#[trigger] sv[j].0) && new_map[sv[j].0] == sv[j].1 by {
                        lemma_map_of_lookup(old_view, sv[j].0);
                        assert(old_view[j].0 == sv[j].0);
                        if j != i {
                            assert(old_view[j].0 != model_id@);
                        }
                    }
                    lemma_map_of_ext(sv, new_map);
                }
            },
            None => {
                let key = string_from_chars(chars_of(model_id).as_slice());
                self.slots.push((key, Some((session, memory))));
                assert(self.slots_view() =~= old_view.push((model_id@, Some((session, memory)))));
                assert(old_view.push((model_id@, Some((session, memory)))).drop_last() =~= old_view);
                assert(self.wf()) by {
                    assert forall|a: int, b: int| 0 <= a < b < self.slots_view().len() implies #[trigger] self.slots_view()[a].0
                        != #[trigger] self.slots_view()[b].0 by {
                        if b == old_view.len() {
                            assert(old_view[a].0 != model_id@);
                        } else {
                            assert(old_view[a] == self.slots_view()[a]);
                            assert(old_view[b] == self.slots_view()[b]);
                        }
                    }
                }
            },
        }
    }

    /// Forgets a model's session (it is dropped once no task uses it).
    pub fn release_session(&mut self, model_id: &str)
        requires
            old(self).wf(),
        ensures
            final(self).wf(),
            final(self).view_map() == old(self).view_map().remove(model_id@),
    {
        let ghost old_view = self.slots_view();
        let ghost new_map = map_of(old_view).remove(model_id@);
        match self.find(model_id) {
            Some(i) => {
                self.slots.remove(i);
                assert(self.slots_view() =~= old_view.remove(i as int));
                let ghost sv = self.slots_view();
                assert(self.wf()) by {
                    assert forall|a: int, b: int| 0 <= a < b < sv.len() implies #[trigger] sv[a].0 != #[trigger] sv[b].0 by {
                        let oa = if a < i { a } else { a + 1 };
                        let ob = if b < i { b } else { b + 1 };
                        assert(sv[a] == old_view[oa]);
                        assert(sv[b] == old_view[ob]);
                    }
                }
                proof {
                    assert forall|k: Seq<char>| new_map.contains_key(k) <==> exists|j: int| 0 <= j < sv.len() && sv[j].0 == k by {
                        lemma_map_of_lookup(old_view, k);
                        if new_map.contains_key(k) {
                            let j = choose|j: int| 0 <= j < old_view.len() && old_view[j].0 == k;
                            assert(j != i);
                            let nj = if j < i { j } else { j - 1 };
                            assert(sv[nj] == old_view[j]);
                        }
                        if exists|j: int| 0 <= j < sv.len() && sv[j].0 == k {
                            let j = choose|j: int| 0 <= j < sv.len() && sv[j].0 == k;
                            let oj = if j < i { j } else { j + 1 };
                            assert(sv[j] == old_view[oj]);
                            assert(oj != i);
                        }
                    }
                    assert forall|j: int| 0 <= j < sv.len() implies new_map.contains_key(#[trigger] sv[j].0) && new_map[sv[j].0] == sv[j].1 by {
                        let oj = if j < i { j } else { j + 1 };
                        assert(sv[j] == old_view[oj]);
                        lemma_map_of_lookup(old_view, sv[j].0);
                    }
                    lemma_map_of_ext(sv, new_map);
                }
            },
            None => {
                assert(map_of(old_view).remove(model_id@) =~= map_of(old_view));
            },
        }
    }

    /// Forgets every session.
    pub fn release_all(&mut self)
        ensures
            final(self).wf(),
            final(self).view_map() == Map::<Seq<char>, Option<(S, usize)>>::empty(),
    {
        self.slots.clear();
        assert(self.slots_view() =~= Seq::<(Seq<char>, Option<(S, usize)>)>::empty());
    }

    /// Each model id with the memory use of its session (0 while not loaded).
    pub fn memory_report(&self) -> (r: Vec<(String, usize)>)
        requires
            self.wf(),
        ensures
            r@.map_values(|e: (String, usize)| (e.0@, e.1)) == self.report_view(),
            distinct_keys(self.report_view()),
            map_of(self.report_view()) == self.view_map().map_values(|v: Option<(S, usize)>| slot_memory(v)),
    {
        let mut r: Vec<(String, usize)> = Vec::new();
        let mut i: usize = 0;
        let ghost sv = self.slots_view();
        let ghost rv = self.report_view();
        while i < self.slots.len()
            invariant
                i <= self.slots@.len(),
                sv == self.slots_view(),
                rv == self.report_view(),
                r@.map_values(|e: (String, usize)| (e.0@, e.1)) == rv.subrange(0, i as int),
            decreases self.slots@.len() - i,
        {
            let key = self.slots[i].0.clone();
            let mem = match &self.slots[i].1 {
                Some((_, m)) => *m,
                None => 0,
            };
            let ghost before = r@.map_values(|e: (String, usize)| (e.0@, e.1));
            r.push((key, mem));
            assert(sv[i as int] == (self.slots@[i as int].0@, self.slots@[i as int].1));
            assert(rv[i as int] == (sv[i as int].0, slot_memory(sv[i as int].1)));
            assert(mem == slot_memory(self.slots@[i as int].1));
            assert(key@ == self.slots@[i as int].0@);
            assert(r@.map_values(|e: (String, usize)| (e.0@, e.1)) =~= before.push((key@, mem)));
            assert(r@.map_values(|e: (String, usize)| (e.0@, e.1)) =~= rv.subrange(0, i + 1));
            i += 1;
        }
        assert(rv.subrange(0, i as int) =~= rv);
        proof {
            assert(distinct_keys(rv)) by {
                assert forall|a: int, b: int| 0 <= a < b < rv.len() implies #[trigger] rv[a].0 != #[trigger] rv[b].0 by {
                    assert(rv[a].0 == sv[a].0);
                    assert(rv[b].0 == sv[b].0);
                }
            }
            let m = map_of(sv).map_values(|v: Option<(S, usize)>| slot_memory(v));
            assert forall|k: Seq<char>| m.contains_key(k) <==> exists|j: int| 0 <= j < rv.len() && rv[j].0 == k by {
                lemma_map_of_lookup(sv, k);
                if m.contains_key(k) {
                    let j = choose|j: int| 0 <= j < sv.len() && sv[j].0 == k;
                    assert(rv[j].0 == k);
                }
                if exists|j: int| 0 <= j < rv.len() && rv[j].0 == k {
                    let j = choose|j: int| 0 <= j < rv.len() && rv[j].0 == k;
                    assert(sv[j].0 == k);
                }
            }
            assert forall|j: int| 0 <= j < rv.len() implies m.contains_key(#[trigger] rv[j].0) && m[rv[j].0] == rv[j].1 by {
                assert(rv[j].0 == sv[j].0);
                lemma_map_of_lookup(sv, sv[j].0);
            }
            lemma_map_of_ext(rv, m);
        }
        r
    }

    /// Total memory use of the loaded sessions.
    pub fn total_memory(&self) -> (t: usize)
        requires
            sum_memory(self.report_view()) <= usize::MAX,
        ensures
            t == sum_memory(self.report_view()),
    {
        let ghost rv = self.report_view();
        let mut t: usize = 0;
        let mut i: usize = 0;
        proof {
            lemma_sum_prefix_bound(rv, 0);
        }
        while i < self.slots.len()
            invariant
                i <= self.slots@.len(),
                rv == self.report_view(),
                rv.len() == self.slots@.len(),
                sum_memory(rv) <= usize::MAX,
                t == sum_memory(rv.subrange(0, i as int)),
            decreases self.slots@.len() - i,
        {
            let mem = match &self.slots[i].1 {
                Some((_, m)) => *m,
                None => 0,
            };
            assert(rv.subrange(0, i + 1).drop_last() =~= rv.subrange(0, i as int));
            assert(rv[i as int].1 == mem);
            proof {
                lemma_sum_prefix_bound(rv, i as int + 1);
            }
            t = t + mem;
            i += 1;
        }
        assert(rv.subrange(0, i as int) =~= rv);
        t
    }
}

proof fn lemma_sum_prefix_bound(s: Seq<(Seq<char>, usize)>, k: int)
    requires
        0 <= k <= s.len(),
    ensures
        0 <= sum_memory(s.subrange(0, k)) <= sum_memory(s),
    decreases s.len() - k,
{
    if k < s.len() {
        lemma_sum_prefix_bound(s, k + 1);
        assert(s.subrange(0, k + 1).drop_last() =~= s.subrange(0, k));
    } else {
        assert(s.subrange(0, k) =~= s);
    }
    lemma_sum_nonneg(s.subrange(0, k));
}

proof fn lemma_sum_nonneg(s: Seq<(Seq<char>, usize)>)
    ensures
        sum_memory(s) >= 0,
    decreases s.len(),
{
    if s.len() > 0 {
        lemma_sum_nonneg(s.drop_last());
    }
}

/// A model's session, once recorded, is served from the registry: the next
/// request for it loads nothing, whatever the backends.
pub proof fn law_loaded_session_is_reused<S>(slots: Map<Seq<char>, Option<(S, usize)>>, model_id: Seq<char>, session: S, memory: usize, names: Seq<Seq<char>>, requested: Option<Seq<char>>)
    ensures
        spec_load_step(slots.insert(model_id, Some((session, memory))), model_id, names, requested) == LoadDecision::Loaded,
{
}

/// A released session is loaded again when next requested (if any backend can).
pub proof fn law_released_session_reloads<S>(slots: Map<Seq<char>, Option<(S, usize)>>, model_id: Seq<char>, names: Seq<Seq<char>>, requested: Option<Seq<char>>)
    ensures
        spec_load_step(slots.remove(model_id), model_id, names, requested) != LoadDecision::Loaded,
        spec_load_step(Map::<Seq<char>, Option<(S, usize)>>::empty(), model_id, names, requested) != LoadDecision::Loaded,
{
}


/// The slots after the first part of serving a request: the model gets a slot
/// (empty) unless it has one.
pub open spec fn slots_after_request<S>(slots: Map<Seq<char>, Option<(S, usize)>>, model_id: Seq<char>) -> Map<Seq<char>, Option<(S, usize)>> {
    if slots.contains_key(model_id) {
        slots
    } else {
        slots.insert(model_id, None)
    }
}

/// A failed load is not remembered: when a request finds no loaded session and
/// the backend then fails (nothing is recorded), the model reports no memory
/// and the next request is served exactly as this one was, loading again.
/// (`begin_load` also keeps the total memory as it was.)
pub proof fn law_failed_load_is_not_cached<S>(slots: Map<Seq<char>, Option<(S, usize)>>, model_id: Seq<char>, names: Seq<Seq<char>>, requested: Option<Seq<char>>)
    requires
        !(slots.contains_key(model_id) && slots[model_id] is Some),
    ensures
        slot_memory(slots_after_request(slots, model_id)[model_id]) == 0,
        spec_load_step(slots_after_request(slots, model_id), model_id, names, requested) == spec_load_step(
            slots,
            model_id,
            names,
            requested,
        ),
        spec_load_step(slots_after_request(slots, model_id), model_id, names, requested)
            != LoadDecision::Loaded,
{
}

/// One operation on the registry.
pub enum RegistryOp<S> {
    /// A request for a model's session (`begin_load`).
    Request(Seq<char>),
    /// A session recorded after a load (`record_loaded`).
    Loaded(Seq<char>, S, usize),
    /// `release_session`.
    Release(Seq<char>),
    /// `release_all`.
    ReleaseAll,
}

/// The slots after a history of operations on an empty registry, each as its
/// method's contract states.
pub open spec fn registry_after<S>(ops: Seq<RegistryOp<S>>) -> Map<Seq<char>, Option<(S, usize)>>
    decreases ops.len(),
{
    if ops.len() == 0 {
        Map::empty()
    } else {
        let pre = registry_after(ops.drop_last());
        match ops.last() {
            RegistryOp::Request(id) => slots_after_request(pre, id),
            RegistryOp::Loaded(id, s, m) => pre.insert(id, Some((s, m))),
            RegistryOp::Release(id) => pre.remove(id),
            RegistryOp::ReleaseAll => Map::empty(),
        }
    }
}

/// Whether an operation asks for or records the model `id`.
pub open spec fn names_model<S>(op: RegistryOp<S>, id: Seq<char>) -> bool {
    match op {
        RegistryOp::Request(x) => x == id,
        RegistryOp::Loaded(x, _, _) => x == id,
        _ => false,
    }
}

/// Whether an operation drops the model `id`.
pub open spec fn drops_model<S>(op: RegistryOp<S>, id: Seq<char>) -> bool {
    match op {
        RegistryOp::Release(x) => x == id,
        RegistryOp::ReleaseAll => true,
        _ => false,
    }
}

/// Whether `id` was asked for or recorded after it was last dropped.
pub open spec fn live_model<S>(ops: Seq<RegistryOp<S>>, id: Seq<char>) -> bool {
    exists|i: int|
        0 <= i < ops.len() && #[trigger] names_model(ops[i], id) && forall|j: int|
            i < j < ops.len() ==> !#[trigger] drops_model(ops[j], id)
}

/// The models in the memory report after any history of requests, loads and
/// releases are exactly those requested or recorded since they were last
/// released (or since the last `release_all`).
pub proof fn law_reported_models<S>(ops: Seq<RegistryOp<S>>, id: Seq<char>)
    ensures
        registry_after(ops).contains_key(id) <==> live_model(ops, id),
    decreases ops.len(),
{
    if ops.len() > 0 {
        let pre = ops.drop_last();
        let n = ops.len() - 1;
        let op = ops.last();
        law_reported_models(pre, id);
        assert(ops[n] == op);
        if names_model(op, id) {
            assert(names_model(ops[n], id));
            assert(live_model(ops, id));
        } else if drops_model(op, id) {
            if live_model(ops, id) {
                let i = choose|i: int|
                    0 <= i < ops.len() && #[trigger] names_model(ops[i], id) && forall|j: int|
                        i < j < ops.len() ==> !#[trigger] drops_model(ops[j], id);
                assert(i != n);
                assert(!drops_model(ops[n], id));
            }
        } else {
            if live_model(pre, id) {
                let i = choose|i: int|
                    0 <= i < pre.len() && #[trigger] names_model(pre[i], id) && forall|j: int|
                        i < j < pre.len() ==> !#[trigger] drops_model(pre[j], id);
                assert(names_model(ops[i], id));
                assert forall|j: int| i < j < ops.len() implies !#[trigger] drops_model(ops[j], id) by {
                    if j < n {
                        assert(ops[j] == pre[j]);
                        assert(!drops_model(pre[j], id));
                    }
                }
                assert(live_model(ops, id));
            }
            if live_model(ops, id) {
                let i = choose|i: int|
                    0 <= i < ops.len() && #[trigger] names_model(ops[i], id) && forall|j: int|
                        i < j < ops.len() ==> !#[trigger] drops_model(ops[j], id);
                assert(i != n);
                assert(names_model(pre[i], id));
                assert forall|j: int| i < j < pre.len() implies !#[trigger] drops_model(pre[j], id) by {
                    assert(ops[j] == pre[j]);
                    assert(!drops_model(ops[j], id));
                }
                assert(live_model(pre, id));
            }
        }
    }
}

/// Whether an operation records a session for the model `id`.
pub open spec fn records_model<S>(op: RegistryOp<S>, id: Seq<char>) -> bool {
    match op {
        RegistryOp::Loaded(x, _, _) => x == id,
        _ => false,
    }
}

/// Once a model's session is recorded, it stays in the registry and every
/// later request for the model is served with it, loading nothing, whatever
/// other models are requested, loaded or released in between, until the model
/// is released (or everything is).
pub proof fn law_session_kept_until_released<S>(
    ops: Seq<RegistryOp<S>>,
    i: int,
    id: Seq<char>,
    session: S,
    memory: usize,
    names: Seq<Seq<char>>,
    requested: Option<Seq<char>>,
)
    requires
        0 <= i < ops.len(),
        ops[i] == RegistryOp::Loaded(id, session, memory),
        forall|j: int|
            i < j < ops.len() ==> !#[trigger] drops_model(ops[j], id) && !records_model(ops[j], id),
    ensures
        registry_after(ops).contains_key(id),
        registry_after(ops)[id] == Some((session, memory)),
        spec_load_step(registry_after(ops), id, names, requested) == LoadDecision::Loaded,
    decreases ops.len(),
{
    let n = ops.len() - 1;
    if i < n {
        let pre = ops.drop_last();
        assert forall|j: int| i < j < pre.len() implies !#[trigger] drops_model(pre[j], id)
            && !records_model(pre[j], id) by {
            assert(pre[j] == ops[j]);
            assert(!drops_model(ops[j], id));
        }
        assert(pre[i] == ops[i]);
        law_session_kept_until_released(pre, i, id, session, memory, names, requested);
        assert(!drops_model(ops[n], id));
        assert(ops.last() == ops[n]);
    }
}
} // verus!
