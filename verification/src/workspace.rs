//! Window classification and the session-local ordered toplevel model.

use vstd::prelude::*;

use crate::glob::{glob_accepts, glob_matches};
use crate::model::{
    views, ClassifiedWindows, Classification, Output, Placement, Toplevel, ToplevelEvent,
    ToplevelKind, WindowRule, WorkspacePlan,
};
use crate::planner::{is_plan, plan};

verus! {

/// Classification before rules: normal root toplevels are managed; dialogs,
/// utilities and transient normals float; desktop and other surfaces are ignored.
pub open spec fn base_classification(t: Toplevel) -> Classification {
    match t.kind {
        ToplevelKind::Normal => if t.parent_id is None {
            Classification::Managed
        } else {
            Classification::Floating
        },
        ToplevelKind::Dialog | ToplevelKind::Utility => Classification::Floating,
        ToplevelKind::Desktop | ToplevelKind::Other => Classification::Ignored,
    }
}

/// The rule names the toplevel's application (or `*`) and, when it has a title
/// pattern, the pattern accepts the title.
pub open spec fn rule_applies(rule: WindowRule, t: Toplevel) -> bool {
    &&& (rule.app_id@ == "*"@ || rule.app_id@ == t.app_id@)
    &&& match rule.title {
        None => true,
        Some(pattern) => glob_accepts(pattern@, t.title@),
    }
}

/// The disposition of the last applying rule, or the base classification when none applies.
pub open spec fn classification(t: Toplevel, rules: Seq<WindowRule>) -> Classification
    decreases rules.len(),
{
    if rules.len() == 0 {
        base_classification(t)
    } else if rule_applies(rules.last(), t) {
        rules.last().disposition
    } else {
        classification(t, rules.drop_last())
    }
}

/// The ids of the toplevels of class `c`, in workspace order.
pub open spec fn ids_of_class(s: Seq<Toplevel>, rules: Seq<WindowRule>, c: Classification) -> Seq<
    Seq<char>,
>
    decreases s.len(),
{
    if s.len() == 0 {
        Seq::empty()
    } else if classification(s.last(), rules) == c {
        ids_of_class(s.drop_last(), rules, c).push(s.last().id@)
    } else {
        ids_of_class(s.drop_last(), rules, c)
    }
}

/// Some toplevel of `s` has the id `id`.
pub open spec fn has_id(s: Seq<Toplevel>, id: Seq<char>) -> bool {
    exists|i: int| 0 <= i < s.len() && s[i].id@ == id
}

/// `i` is the first position of a toplevel with id `id`.
pub open spec fn first_with_id(s: Seq<Toplevel>, id: Seq<char>, i: int) -> bool {
    &&& 0 <= i < s.len()
    &&& s[i].id@ == id
    &&& forall|j: int| 0 <= j < i ==> s[j].id@ != id
}

/// The first position of a toplevel with id `id` (meaningful when `has_id(s, id)`).
pub open spec fn position_of(s: Seq<Toplevel>, id: Seq<char>) -> int {
    choose|i: int| first_with_id(s, id, i)
}

/// Upsert: a toplevel replaces the first one with its id in place, or is appended.
pub open spec fn upserted(s: Seq<Toplevel>, t: Toplevel) -> Seq<Toplevel> {
    if has_id(s, t.id@) {
        s.update(position_of(s, t.id@), t)
    } else {
        s.push(t)
    }
}

/// Removal: every toplevel with id `id` leaves; the others keep their order.
pub open spec fn without_id(s: Seq<Toplevel>, id: Seq<char>) -> Seq<Toplevel>
    decreases s.len(),
{
    if s.len() == 0 {
        s
    } else if s.last().id@ == id {
        without_id(s.drop_last(), id)
    } else {
        without_id(s.drop_last(), id).push(s.last())
    }
}

/// The model after one event; `Reconcile` leaves it unchanged.
pub open spec fn applied(s: Seq<Toplevel>, e: ToplevelEvent) -> Seq<Toplevel> {
    match e {
        ToplevelEvent::Upsert(t) => upserted(s, t),
        ToplevelEvent::Remove { id } => without_id(s, id@),
        ToplevelEvent::Reconcile => s,
    }
}

/// No two toplevels share an id.
pub open spec fn distinct_ids(s: Seq<Toplevel>) -> bool {
    forall|i: int, j: int| 0 <= i < j < s.len() ==> s[i].id@ != s[j].id@
}

/// The classification of the first toplevel with id `id`, if any.
pub open spec fn classification_by_id(s: Seq<Toplevel>, id: Seq<char>, rules: Seq<WindowRule>) -> Option<
    Classification,
> {
    if has_id(s, id) {
        Some(classification(s[position_of(s, id)], rules))
    } else {
        None
    }
}

pub proof fn lemma_first_with_id(s: Seq<Toplevel>, id: Seq<char>, i: int)
    requires
        first_with_id(s, id, i),
    ensures
        position_of(s, id) == i,
        has_id(s, id),
{
    let k = position_of(s, id);
    assert(first_with_id(s, id, k));
    if k < i {
        assert(s[k].id@ != id);
    }
    if i < k {
        assert(s[i].id@ != id);
    }
}

pub proof fn lemma_has_first(s: Seq<Toplevel>, id: Seq<char>)
    requires
        has_id(s, id),
    ensures
        first_with_id(s, id, position_of(s, id)),
    decreases s.len(),
{
    if s.last().id@ == id && !has_id(s.drop_last(), id) {
        let i = s.len() - 1;
        assert forall|j: int| 0 <= j < i implies s[j].id@ != id by {
            assert(s.drop_last()[j] == s[j]);
        }
        lemma_first_with_id(s, id, i);
    } else {
        let w = choose|w: int| 0 <= w < s.len() && s[w].id@ == id;
        if w == s.len() - 1 {
        } else {
            assert(s.drop_last()[w] == s[w]);
        }
        lemma_has_first(s.drop_last(), id);
        let k = position_of(s.drop_last(), id);
        assert forall|j: int| 0 <= j < k implies s[j].id@ != id by {
            assert(s.drop_last()[j] == s[j]);
        }
        assert(s.drop_last()[k] == s[k]);
        lemma_first_with_id(s, id, k);
    }
}

/// Upserting the same toplevel twice is the same as upserting it once.
pub proof fn lemma_upsert_idempotent(s: Seq<Toplevel>, t: Toplevel)
    ensures
        upserted(upserted(s, t), t) == upserted(s, t),
{
    let id = t.id@;
    let once = upserted(s, t);
    if has_id(s, id) {
        lemma_has_first(s, id);
        let p = position_of(s, id);
        assert(first_with_id(once, id, p));
        lemma_first_with_id(once, id, p);
        assert(once.update(p, t) =~= once);
    } else {
        let p = s.len() as int;
        assert(first_with_id(once, id, p));
        lemma_first_with_id(once, id, p);
        assert(once.update(p, t) =~= once);
    }
}

/// Upserts keep toplevel ids distinct.
pub proof fn lemma_upsert_keeps_ids_distinct(s: Seq<Toplevel>, t: Toplevel)
    requires
        distinct_ids(s),
    ensures
        distinct_ids(upserted(s, t)),
{
    if has_id(s, t.id@) {
        lemma_has_first(s, t.id@);
    }
}

/// After a removal no toplevel has the removed id, every other toplevel stays, and
/// the survivors keep their relative order.
pub proof fn lemma_remove_drops_exactly(s: Seq<Toplevel>, id: Seq<char>)
    ensures
        !has_id(without_id(s, id), id),
        without_id(s, id).len() <= s.len(),
        forall|i: int| 0 <= i < s.len() && s[i].id@ != id ==> without_id(s, id).contains(s[i]),
        distinct_ids(s) ==> distinct_ids(without_id(s, id)),
    decreases s.len(),
{
    if s.len() > 0 {
        let rest = s.drop_last();
        lemma_remove_drops_exactly(rest, id);
        let r = without_id(rest, id);
        assert forall|i: int| 0 <= i < s.len() && s[i].id@ != id implies without_id(
            s,
            id,
        ).contains(s[i]) by {
            if i < s.len() - 1 {
                assert(rest[i] == s[i]);
                let k = choose|k: int| 0 <= k < r.len() && r[k] == rest[i];
                if s.last().id@ != id {
                    assert(without_id(s, id)[k] == r[k]);
                }
            } else {
                assert(without_id(s, id)[r.len() as int] == s[i]);
            }
        }
        if distinct_ids(s) {
            assert forall|i: int, j: int| 0 <= i < j < rest.len() implies rest[i].id@
                != rest[j].id@ by {
                assert(rest[i] == s[i] && rest[j] == s[j]);
            }
            if s.last().id@ != id {
                let out = without_id(s, id);
                assert forall|i: int, j: int| 0 <= i < j < out.len() implies out[i].id@
                    != out[j].id@ by {
                    if j == out.len() - 1 {
                        assert(r.contains(r[i]));
                        lemma_members_of_removal(rest, id, r[i]);
                        let k = choose|k: int| 0 <= k < rest.len() && rest[k] == r[i];
                        assert(s[k] == rest[k]);
                        assert(s[k].id@ != s[s.len() - 1].id@);
                    }
                }
            }
        }
    }
}

/// Every toplevel left after a removal was in the workspace before it.
pub proof fn lemma_members_of_removal(s: Seq<Toplevel>, id: Seq<char>, t: Toplevel)
    requires
        without_id(s, id).contains(t),
    ensures
        s.contains(t),
        t.id@ != id,
    decreases s.len(),
{
    if s.len() > 0 {
        let rest = s.drop_last();
        let r = without_id(rest, id);
        let k = choose|k: int| 0 <= k < without_id(s, id).len() && without_id(s, id)[k] == t;
        if k < r.len() {
            assert(r[k] == t);
            lemma_members_of_removal(rest, id, t);
            let m = choose|m: int| 0 <= m < rest.len() && rest[m] == t;
            assert(s[m] == t);
        } else {
            assert(s[s.len() - 1] == t);
        }
    }
}

/// Removing a toplevel right after adding it (under a new id) restores the workspace.
pub proof fn lemma_remove_undoes_new_upsert(s: Seq<Toplevel>, t: Toplevel)
    requires
        !has_id(s, t.id@),
    ensures
        without_id(upserted(s, t), t.id@) == s,
{
    lemma_remove_absent(s, t.id@);
    assert(upserted(s, t).drop_last() =~= s);
}

proof fn lemma_remove_absent(s: Seq<Toplevel>, id: Seq<char>)
    requires
        !has_id(s, id),
    ensures
        without_id(s, id) == s,
    decreases s.len(),
{
    if s.len() > 0 {
        assert(!has_id(s.drop_last(), id)) by {
            if has_id(s.drop_last(), id) {
                let w = choose|w: int| 0 <= w < s.drop_last().len() && s.drop_last()[w].id@ == id;
                assert(s[w] == s.drop_last()[w]);
            }
        }
        lemma_remove_absent(s.drop_last(), id);
        assert(s.last().id@ != id) by {
            assert(s[s.len() - 1] == s.last());
        }
        assert(s.drop_last().push(s.last()) =~= s);
    }
}

/// Every toplevel is managed, floating or ignored: the three classes together are
/// as many as the toplevels.
pub proof fn lemma_classes_partition(s: Seq<Toplevel>, rules: Seq<WindowRule>)
    ensures
        ids_of_class(s, rules, Classification::Managed).len() + ids_of_class(
            s,
            rules,
            Classification::Floating,
        ).len() + ids_of_class(s, rules, Classification::Ignored).len() == s.len(),
    decreases s.len(),
{
    if s.len() > 0 {
        lemma_classes_partition(s.drop_last(), rules);
    }
}

/// With a ceiling of at most six, planning loses no window: every toplevel is placed,
/// floating or ignored.
pub proof fn lemma_plan_keeps_every_window(
    s: Seq<Toplevel>,
    rules: Seq<WindowRule>,
    output: Output,
    maximum: int,
    placements: Seq<Placement>,
    floating: Seq<Seq<char>>,
    ignored: Seq<Seq<char>>,
)
    requires
        0 <= maximum <= 6,
        ({
            let managed = ids_of_class(s, rules, Classification::Managed);
            let kept = if maximum < managed.len() { maximum } else { managed.len() as int };
            &&& is_plan(placements, output, managed.take(kept))
            &&& floating == ids_of_class(s, rules, Classification::Floating) + managed.skip(kept)
            &&& ignored == ids_of_class(s, rules, Classification::Ignored)
        }),
    ensures
        placements.len() + floating.len() + ignored.len() == s.len(),
{
    lemma_classes_partition(s, rules);
}

/// Copies a toplevel field by field.
pub fn copy_toplevel(t: &Toplevel) -> (r: Toplevel)
    ensures
        r == *t,
{
    Toplevel {
        id: t.id.clone(),
        app_id: t.app_id.clone(),
        title: t.title.clone(),
        kind: t.kind,
        parent_id: match &t.parent_id {
            Some(p) => Some(p.clone()),
            None => None,
        },
    }
}

/// Classify one toplevel: its kind and parent decide, then the last applying rule wins.
pub fn classify_toplevel(toplevel: &Toplevel, rules: &[WindowRule]) -> (c: Classification)
    ensures
        c == classification(*toplevel, rules@),
{
    let mut classification = match toplevel.kind {
        ToplevelKind::Normal => if toplevel.parent_id.is_none() {
            Classification::Managed
        } else {
            Classification::Floating
        },
        ToplevelKind::Dialog | ToplevelKind::Utility => Classification::Floating,
        ToplevelKind::Desktop | ToplevelKind::Other => Classification::Ignored,
    };
    let star = "*".to_owned();
    let mut i: usize = 0;
    while i < rules.len()
        invariant
            i <= rules@.len(),
            star@ == "*"@,
            classification == crate::workspace::classification(*toplevel, rules@.take(i as int)),
        decreases rules@.len() - i,
    {
        let rule = &rules[i];
        assert(rules@.take(i + 1).drop_last() =~= rules@.take(i as int));
        assert(rules@.take(i + 1).last() == rules@[i as int]);
        let names_app = rule.app_id == star || rule.app_id == toplevel.app_id;
        let title_ok = match &rule.title {
            None => true,
            Some(pattern) => glob_matches(pattern.as_str(), toplevel.title.as_str()),
        };
        if names_app && title_ok {
            classification = rule.disposition;
        }
        i += 1;
    }
    assert(rules@.take(rules@.len() as int) =~= rules@);
    classification
}

/// Session-local model. Insertion order is the stable automatic-layout order.
#[derive(Clone, Debug, PartialEq, Eq)]
pub struct Workspace {
    toplevels: Vec<Toplevel>,
}

impl View for Workspace {
    type V = Seq<Toplevel>;

    closed spec fn view(&self) -> Seq<Toplevel> {
        self.toplevels@
    }
}

impl Default for Workspace {
    fn default() -> (w: Self)
        ensures
            w@ == Seq::<Toplevel>::empty(),
    {
        Workspace { toplevels: Vec::new() }
    }
}

impl Workspace {
    pub fn apply(&mut self, event: ToplevelEvent)
        ensures
            final(self)@ == applied(old(self)@, event),
            distinct_ids(old(self)@) ==> distinct_ids(final(self)@),
    {
        match event {
            ToplevelEvent::Upsert(toplevel) => self.upsert(toplevel),
            ToplevelEvent::Remove { id } => self.remove(id.as_str()),
            ToplevelEvent::Reconcile => {},
        }
    }

    pub fn upsert(&mut self, toplevel: Toplevel)
        ensures
            final(self)@ == upserted(old(self)@, toplevel),
            distinct_ids(old(self)@) ==> distinct_ids(final(self)@),
    {
        proof {
            if distinct_ids(old(self)@) {
                lemma_upsert_keeps_ids_distinct(old(self)@, toplevel);
            }
        }
        let mut i: usize = 0;
        while i < self.toplevels.len()
            invariant
                i <= self.toplevels@.len(),
                self.toplevels@ == old(self)@,
                forall|j: int| 0 <= j < i ==> self.toplevels@[j].id@ != toplevel.id@,
            decreases self.toplevels@.len() - i,
        {
            if self.toplevels[i].id == toplevel.id {
                proof {
                    lemma_first_with_id(old(self)@, toplevel.id@, i as int);
                }
                self.toplevels.set(i, toplevel);
                return;
            }
            i += 1;
        }
        self.toplevels.push(toplevel);
    }

    pub fn remove(&mut self, id: &str)
        ensures
            final(self)@ == without_id(old(self)@, id@),
            distinct_ids(old(self)@) ==> distinct_ids(final(self)@),
    {
        proof {
            if distinct_ids(old(self)@) {
                lemma_remove_keeps_ids_distinct(old(self)@, id@);
            }
        }
        let target = id.to_owned();
        let mut kept: Vec<Toplevel> = Vec::new();
        let mut i: usize = 0;
        while i < self.toplevels.len()
            invariant
                i <= self.toplevels@.len(),
                self.toplevels@ == old(self)@,
                target@ == id@,
                kept@ == without_id(self.toplevels@.take(i as int), id@),
            decreases self.toplevels@.len() - i,
        {
            assert(self.toplevels@.take(i + 1).drop_last() =~= self.toplevels@.take(i as int));
            assert(self.toplevels@.take(i + 1).last() == self.toplevels@[i as int]);
            if self.toplevels[i].id != target {
                kept.push(copy_toplevel(&self.toplevels[i]));
            }
            i += 1;
        }
        assert(self.toplevels@.take(self.toplevels@.len() as int) =~= self.toplevels@);
        self.toplevels = kept;
    }

    pub fn classify(&self, rules: &[WindowRule]) -> (r: ClassifiedWindows)
        ensures
            views(r.managed@) == ids_of_class(self@, rules@, Classification::Managed),
            views(r.floating@) == ids_of_class(self@, rules@, Classification::Floating),
            views(r.ignored@) == ids_of_class(self@, rules@, Classification::Ignored),
    {
        let mut windows = ClassifiedWindows {
            managed: Vec::new(),
            floating: Vec::new(),
            ignored: Vec::new(),
        };
        let mut i: usize = 0;
        while i < self.toplevels.len()
            invariant
                i <= self.toplevels@.len(),
                views(windows.managed@) == ids_of_class(
                    self.toplevels@.take(i as int),
                    rules@,
                    Classification::Managed,
                ),
                views(windows.floating@) == ids_of_class(
                    self.toplevels@.take(i as int),
                    rules@,
                    Classification::Floating,
                ),
                views(windows.ignored@) == ids_of_class(
                    self.toplevels@.take(i as int),
                    rules@,
                    Classification::Ignored,
                ),
            decreases self.toplevels@.len() - i,
        {
            let toplevel = &self.toplevels[i];
            assert(self.toplevels@.take(i + 1).drop_last() =~= self.toplevels@.take(i as int));
            assert(self.toplevels@.take(i + 1).last() == self.toplevels@[i as int]);
            let ghost m = windows.managed@;
            let ghost f = windows.floating@;
            let ghost g = windows.ignored@;
            match classify_toplevel(toplevel, rules) {
                Classification::Managed => {
                    windows.managed.push(toplevel.id.clone());
                    assert(views(windows.managed@) =~= views(m).push(toplevel.id@));
                },
                Classification::Floating => {
                    windows.floating.push(toplevel.id.clone());
                    assert(views(windows.floating@) =~= views(f).push(toplevel.id@));
                },
                Classification::Ignored => {
                    windows.ignored.push(toplevel.id.clone());
                    assert(views(windows.ignored@) =~= views(g).push(toplevel.id@));
                },
            }
            i += 1;
        }
        assert(self.toplevels@.take(self.toplevels@.len() as int) =~= self.toplevels@);
        windows
    }

    pub fn classification_of(&self, id: &str, rules: &[WindowRule]) -> (r: Option<Classification>)
        ensures
            r == classification_by_id(self@, id@, rules@),
    {
        let target = id.to_owned();
        let mut i: usize = 0;
        while i < self.toplevels.len()
            invariant
                i <= self.toplevels@.len(),
                target@ == id@,
                forall|j: int| 0 <= j < i ==> self.toplevels@[j].id@ != id@,
            decreases self.toplevels@.len() - i,
        {
            if self.toplevels[i].id == target {
                proof {
                    lemma_first_with_id(self.toplevels@, id@, i as int);
                }
                return Some(classify_toplevel(&self.toplevels[i], rules));
            }
            i += 1;
        }
        None
    }

    /// Plan the managed windows up to `maximum`; the overflow floats after the floating ones.
    pub fn plan(&self, output: Output, rules: &[WindowRule], maximum: usize) -> (r: WorkspacePlan)
        ensures
            ({
                let managed = ids_of_class(self@, rules@, Classification::Managed);
                let kept = if maximum < managed.len() { maximum as int } else { managed.len() as int };
                &&& is_plan(r.placements@, output, managed.take(kept))
                &&& views(r.floating@) == ids_of_class(self@, rules@, Classification::Floating)
                    + managed.skip(kept)
                &&& views(r.ignored@) == ids_of_class(self@, rules@, Classification::Ignored)
            }),
    {
        let mut classified = self.classify(rules);
        let at = if maximum < classified.managed.len() { maximum } else { classified.managed.len() };
        let ghost managed = classified.managed@;
        let ghost floating = classified.floating@;
        let mut overflow = classified.managed.split_off(at);
        classified.floating.append(&mut overflow);
        let placements = plan(output, classified.managed.as_slice());
        assert(views(classified.managed@) =~= views(managed).take(at as int));
        assert(views(classified.floating@) =~= views(floating) + views(managed).skip(at as int));
        WorkspacePlan {
            placements,
            floating: classified.floating,
            ignored: classified.ignored,
        }
    }

    /// The plan with automatic placement off: nothing is placed, and the windows that
    /// would be managed float after the floating ones.
    pub fn float_plan(&self, rules: &[WindowRule]) -> (r: WorkspacePlan)
        ensures
            r.placements@.len() == 0,
            views(r.floating@) == ids_of_class(self@, rules@, Classification::Floating)
                + ids_of_class(self@, rules@, Classification::Managed),
            views(r.ignored@) == ids_of_class(self@, rules@, Classification::Ignored),
    {
        let mut classified = self.classify(rules);
        let ghost managed = classified.managed@;
        let ghost floating = classified.floating@;
        classified.floating.append(&mut classified.managed);
        assert(views(classified.floating@) =~= views(floating) + views(managed));
        WorkspacePlan { placements: Vec::new(), floating: classified.floating, ignored: classified.ignored }
    }
}

} // verus!

verus! {

/// The last matching rule wins: when rule `k` applies to the toplevel and no later
/// rule does, the toplevel takes rule `k`'s disposition, whatever earlier rules say.
pub proof fn lemma_last_matching_rule_wins(t: Toplevel, rules: Seq<WindowRule>, k: int)
    requires
        0 <= k < rules.len(),
        rule_applies(rules[k], t),
        forall|j: int| k < j < rules.len() ==> !rule_applies(#[trigger] rules[j], t),
    ensures
        classification(t, rules) == rules[k].disposition,
    decreases rules.len(),
{
    if k < rules.len() - 1 {
        assert(!rule_applies(rules[rules.len() - 1], t));
        assert(rules.drop_last()[k] == rules[k]);
        assert forall|j: int| k < j < rules.drop_last().len() implies !rule_applies(
            #[trigger] rules.drop_last()[j],
            t,
        ) by {
            assert(rules.drop_last()[j] == rules[j]);
        }
        lemma_last_matching_rule_wins(t, rules.drop_last(), k);
    }
}

/// Without an applying rule a toplevel keeps its kind's classification.
pub proof fn lemma_unmatched_keeps_base_classification(t: Toplevel, rules: Seq<WindowRule>)
    requires
        forall|j: int| 0 <= j < rules.len() ==> !rule_applies(#[trigger] rules[j], t),
    ensures
        classification(t, rules) == base_classification(t),
    decreases rules.len(),
{
    if rules.len() > 0 {
        assert(!rule_applies(rules[rules.len() - 1], t));
        assert forall|j: int| 0 <= j < rules.drop_last().len() implies !rule_applies(
            #[trigger] rules.drop_last()[j],
            t,
        ) by {
            assert(rules.drop_last()[j] == rules[j]);
        }
        lemma_unmatched_keeps_base_classification(t, rules.drop_last());
    }
}

} // verus!

verus! {

/// Removals keep toplevel ids distinct.
pub proof fn lemma_remove_keeps_ids_distinct(s: Seq<Toplevel>, id: Seq<char>)
    requires
        distinct_ids(s),
    ensures
        distinct_ids(without_id(s, id)),
    decreases s.len(),
{
    if s.len() > 0 {
        let rest = s.drop_last();
        assert(distinct_ids(rest)) by {
            assert forall|i: int, j: int| 0 <= i < j < rest.len() implies rest[i].id@
                != rest[j].id@ by {
                assert(rest[i] == s[i] && rest[j] == s[j]);
            }
        }
        lemma_remove_keeps_ids_distinct(rest, id);
        if s.last().id@ != id {
            let w = without_id(rest, id);
            assert forall|i: int| 0 <= i < w.len() implies w[i].id@ != s.last().id@ by {
                assert(w.contains(w[i]));
                lemma_members_of_removal(rest, id, w[i]);
                let k = choose|k: int| 0 <= k < rest.len() && rest[k] == w[i];
                assert(s[k] == rest[k]);
                assert(s[s.len() - 1] == s.last());
            }
            assert(without_id(s, id) == w.push(s.last()));
        }
    }
}

proof fn lemma_class_member(s: Seq<Toplevel>, rules: Seq<WindowRule>, c: Classification, id: Seq<char>)
    requires
        ids_of_class(s, rules, c).contains(id),
    ensures
        exists|i: int| 0 <= i < s.len() && s[i].id@ == id && classification(s[i], rules) == c,
    decreases s.len(),
{
    let rest = s.drop_last();
    let ids = ids_of_class(rest, rules, c);
    let k = choose|k: int| 0 <= k < ids_of_class(s, rules, c).len() && ids_of_class(s, rules, c)[k] == id;
    if classification(s.last(), rules) == c && k == ids.len() {
        assert(s[s.len() - 1] == s.last());
    } else {
        assert(ids[k] == id);
        lemma_class_member(rest, rules, c, id);
        let i = choose|i: int| 0 <= i < rest.len() && rest[i].id@ == id && classification(rest[i], rules) == c;
        assert(s[i] == rest[i]);
    }
}

proof fn lemma_class_ids_distinct(s: Seq<Toplevel>, rules: Seq<WindowRule>, c: Classification)
    requires
        distinct_ids(s),
    ensures
        ids_of_class(s, rules, c).no_duplicates(),
    decreases s.len(),
{
    if s.len() > 0 {
        let rest = s.drop_last();
        assert(distinct_ids(rest)) by {
            assert forall|i: int, j: int| 0 <= i < j < rest.len() implies rest[i].id@
                != rest[j].id@ by {
                assert(rest[i] == s[i] && rest[j] == s[j]);
            }
        }
        lemma_class_ids_distinct(rest, rules, c);
        let ids = ids_of_class(rest, rules, c);
        if classification(s.last(), rules) == c {
            let x = s.last().id@;
            assert(!ids.contains(x)) by {
                if ids.contains(x) {
                    lemma_class_member(rest, rules, c, x);
                    let i = choose|i: int| 0 <= i < rest.len() && rest[i].id@ == x && classification(rest[i], rules) == c;
                    assert(s[i] == rest[i]);
                    assert(s[s.len() - 1] == s.last());
                }
            }
            let all = ids.push(x);
            assert forall|i: int, j: int| 0 <= i < all.len() && 0 <= j < all.len() && i != j implies all[i]
                != all[j] by {
                if i < ids.len() && j < ids.len() {
                    assert(all[i] == ids[i] && all[j] == ids[j]);
                } else if i < ids.len() {
                    assert(all[i] == ids[i]);
                } else if j < ids.len() {
                    assert(all[j] == ids[j]);
                }
            }
        }
    }
}

/// In a workspace with distinct ids, classification lists every id once: no class
/// lists an id twice, and no id is in two classes.
pub proof fn lemma_each_id_listed_once(s: Seq<Toplevel>, rules: Seq<WindowRule>)
    requires
        distinct_ids(s),
    ensures
        forall|c: Classification| #[trigger] ids_of_class(s, rules, c).no_duplicates(),
        forall|c: Classification, d: Classification, id: Seq<char>|
            #[trigger] ids_of_class(s, rules, c).contains(id) && #[trigger] ids_of_class(
                s,
                rules,
                d,
            ).contains(id) ==> c == d,
{
    assert forall|c: Classification| #[trigger] ids_of_class(s, rules, c).no_duplicates() by {
        lemma_class_ids_distinct(s, rules, c);
    }
    assert forall|c: Classification, d: Classification, id: Seq<char>|
        #[trigger] ids_of_class(s, rules, c).contains(id) && #[trigger] ids_of_class(
            s,
            rules,
            d,
        ).contains(id) implies c == d by {
        lemma_class_member(s, rules, c, id);
        lemma_class_member(s, rules, d, id);
        let i = choose|i: int| 0 <= i < s.len() && s[i].id@ == id && classification(s[i], rules) == c;
        let j = choose|j: int| 0 <= j < s.len() && s[j].id@ == id && classification(s[j], rules) == d;
        if i < j {
            assert(s[i].id@ != s[j].id@);
        } else if j < i {
            assert(s[j].id@ != s[i].id@);
        }
    }
}

} // verus!
