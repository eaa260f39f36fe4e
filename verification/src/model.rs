//! Domain entities of the workflow model and the two indices built over them.
//!
//! Each executable type has a ghost mirror (`G...`) over `Seq<char>` views,
//! reached through `View`, so that every contract can speak about plain
//! mathematical values.  The indices are association lists with unique keys;
//! entry order is the order of first insertion, which keeps every later
//! traversal deterministic.

use vstd::prelude::*;
use crate::strutil::str_eq;

verus! {

/// Ghost mirror of [`NextAktivitet`].
pub ghost struct GTransition {
    pub target: Seq<char>,
    pub condition: Option<Seq<char>>,
    pub is_collection: bool,
}

/// One outgoing transition extracted from a handler method.
pub struct NextAktivitet {
    pub aktivitet_name: String,
    pub condition: Option<String>,
    /// True if this transition creates multiple instances (fan-out).
    pub is_collection: bool,
}

/// The view of an optional string.
pub open spec fn opt_str_view(o: Option<String>) -> Option<Seq<char>> {
    match o {
        Some(s) => Some(s@),
        None => None,
    }
}

impl View for NextAktivitet {
    type V = GTransition;

    open spec fn view(&self) -> GTransition {
        GTransition {
            target: self.aktivitet_name@,
            condition: opt_str_view(self.condition),
            is_collection: self.is_collection,
        }
    }
}

/// The views of a sequence of transitions.
pub open spec fn trans_views(s: Seq<NextAktivitet>) -> Seq<GTransition> {
    s.map_values(|t: NextAktivitet| t@)
}

/// Clone an optional string, preserving its view.
pub fn clone_opt_string(o: &Option<String>) -> (r: Option<String>)
    ensures
        opt_str_view(r) == opt_str_view(*o),
{
    match o {
        Some(s) => Some(s.clone()),
        None => None,
    }
}

/// Clone a vector of strings, preserving its views.
pub fn clone_string_vec(v: &Vec<String>) -> (r: Vec<String>)
    ensures
        r@.map_values(|s: String| s@) == v@.map_values(|s: String| s@),
{
    let mut r: Vec<String> = Vec::new();
    let mut i: usize = 0;
    while i < v.len()
        invariant
            0 <= i <= v@.len(),
            r@.len() == i,
            forall|k: int| 0 <= k < i ==> r@[k]@ == v@[k]@,
        decreases v@.len() - i,
    {
        r.push(v[i].clone());
        i += 1;
    }
    proof {
        assert(r@.map_values(|s: String| s@) =~= v@.map_values(|s: String| s@));
    }
    r
}

/// Ghost mirror of [`ClassInfo`].
pub ghost struct GClass {
    pub name: Seq<char>,
    pub file: Seq<char>,
    pub supertypes: Seq<Seq<char>>,
    pub initial_aktivitet: Option<Seq<char>>,
}

/// A declared class: its name, origin file, declared supertypes, and the
/// entry activity returned by its factory method, when one was found.
pub struct ClassInfo {
    pub name: String,
    pub file: String,
    pub supertypes: Vec<String>,
    pub initial_aktivitet: Option<String>,
}

impl View for ClassInfo {
    type V = GClass;

    open spec fn view(&self) -> GClass {
        GClass {
            name: self.name@,
            file: self.file@,
            supertypes: self.supertypes@.map_values(|s: String| s@),
            initial_aktivitet: opt_str_view(self.initial_aktivitet),
        }
    }
}

/// Ghost mirror of [`ProcessorInfo`].
pub ghost struct GProcessor {
    pub processor_class: Seq<char>,
    pub transitions: Seq<GTransition>,
    pub has_manuell_behandling: bool,
}

/// What one handler class contributes for the activity it is bound to.
pub struct ProcessorInfo {
    pub processor_class: String,
    pub next_aktiviteter: Vec<NextAktivitet>,
    pub has_manuell_behandling: bool,
}

impl View for ProcessorInfo {
    type V = GProcessor;

    open spec fn view(&self) -> GProcessor {
        GProcessor {
            processor_class: self.processor_class@,
            transitions: trans_views(self.next_aktiviteter@),
            has_manuell_behandling: self.has_manuell_behandling,
        }
    }
}

/// Ghost mirror of [`Edge`].
pub ghost struct GEdge {
    pub from: Seq<char>,
    pub to: Seq<char>,
    pub label: Seq<char>,
    pub is_collection: bool,
}

/// One presentation edge of the flow graph.
pub struct Edge {
    pub from: String,
    pub to: String,
    pub label: String,
    pub is_collection: bool,
}

impl View for Edge {
    type V = GEdge;

    open spec fn view(&self) -> GEdge {
        GEdge {
            from: self.from@,
            to: self.to@,
            label: self.label@,
            is_collection: self.is_collection,
        }
    }
}

/// The views of a sequence of edges.
pub open spec fn edge_views(s: Seq<Edge>) -> Seq<GEdge> {
    s.map_values(|e: Edge| e@)
}

/// Ghost mirror of [`IterationGroup`].
pub ghost struct GIterationGroup {
    pub trigger_node: Seq<char>,
    pub iterated_nodes: Seq<Seq<char>>,
}

/// A fan-out region: the node that triggers the iteration and the chain of
/// nodes it covers.
pub struct IterationGroup {
    pub trigger_node: String,
    pub iterated_nodes: Vec<String>,
}

impl View for IterationGroup {
    type V = GIterationGroup;

    open spec fn view(&self) -> GIterationGroup {
        GIterationGroup {
            trigger_node: self.trigger_node@,
            iterated_nodes: self.iterated_nodes@.map_values(|s: String| s@),
        }
    }
}

// ---------------------------------------------------------------------------
// Class index
// ---------------------------------------------------------------------------

/// The views of a sequence of class entries.
pub open spec fn class_views(s: Seq<ClassInfo>) -> Seq<GClass> {
    s.map_values(|c: ClassInfo| c@)
}

/// First entry named `name`, if any.
pub open spec fn lookup_class(s: Seq<GClass>, name: Seq<char>) -> Option<GClass>
    decreases s.len(),
{
    if s.len() == 0 {
        None
    } else if s[0].name == name {
        Some(s[0])
    } else {
        lookup_class(s.drop_first(), name)
    }
}

/// Replace the first entry with `c`'s name by `c`, or append `c`.
pub open spec fn upsert_class(s: Seq<GClass>, c: GClass) -> Seq<GClass>
    decreases s.len(),
{
    if s.len() == 0 {
        seq![c]
    } else if s[0].name == c.name {
        seq![c] + s.drop_first()
    } else {
        seq![s[0]] + upsert_class(s.drop_first(), c)
    }
}

/// All declared classes, keyed by class name.  A name declared twice keeps
/// only the later declaration (last write wins).
pub struct ClassIndex {
    pub entries: Vec<ClassInfo>,
}

impl View for ClassIndex {
    type V = Seq<GClass>;

    open spec fn view(&self) -> Seq<GClass> {
        class_views(self.entries@)
    }
}

impl ClassIndex {
    /// An empty index.
    pub fn new() -> (r: ClassIndex)
        ensures
            r@ == Seq::<GClass>::empty(),
    {
        let r = ClassIndex { entries: Vec::new() };
        proof {
            assert(r@ =~= Seq::<GClass>::empty());
        }
        r
    }

    /// Number of indexed classes.
    pub fn len(&self) -> (r: usize)
        ensures
            r == self@.len(),
    {
        self.entries.len()
    }

    /// Look a class up by name.
    pub fn get(&self, name: &str) -> (r: Option<&ClassInfo>)
        ensures
            match r {
                Some(c) => lookup_class(self@, name@) == Some(c@),
                None => lookup_class(self@, name@) is None,
            },
    {
        proof {
            assert(class_views(self.entries@).skip(0) =~= class_views(self.entries@));
        }
        let mut i: usize = 0;
        while i < self.entries.len()
            invariant
                0 <= i <= self.entries@.len(),
                forall|k: int| 0 <= k < i ==> class_views(self.entries@)[k].name != name@,
                lookup_class(self@, name@) == lookup_class(
                    class_views(self.entries@).skip(i as int),
                    name@,
                ),
            decreases self.entries@.len() - i,
        {
            proof {
                assert(class_views(self.entries@).skip(i as int).drop_first() =~= class_views(
                    self.entries@,
                ).skip(i + 1));
            }
            if str_eq(self.entries[i].name.as_str(), name) {
                return Some(&self.entries[i]);
            }
            i += 1;
        }
        None
    }

    /// Insert `c`, overwriting any earlier entry with the same name in place.
    pub fn insert(&mut self, c: ClassInfo)
        ensures
            final(self)@ == upsert_class(old(self)@, c@),
    {
        let ghost c_view = c@;
        proof {
            assert(class_views(self.entries@).skip(0) =~= class_views(self.entries@));
            assert(class_views(self.entries@).take(0) + upsert_class(
                class_views(self.entries@),
                c_view,
            ) =~= upsert_class(class_views(self.entries@), c_view));
        }
        let mut i: usize = 0;
        while i < self.entries.len()
            invariant
                0 <= i <= self.entries@.len(),
                self.entries@ == old(self).entries@,
                forall|k: int| 0 <= k < i ==> class_views(self.entries@)[k].name != c_view.name,
                c@ == c_view,
                upsert_class(class_views(self.entries@), c_view) == class_views(
                    self.entries@,
                ).take(i as int) + upsert_class(
                    class_views(self.entries@).skip(i as int),
                    c_view,
                ),
            decreases self.entries@.len() - i,
        {
            proof {
                assert(class_views(self.entries@).skip(i as int).drop_first() =~= class_views(
                    self.entries@,
                ).skip(i + 1));
                assert(class_views(self.entries@).take(i as int) + seq![
                    class_views(self.entries@)[i as int],
                ] =~= class_views(self.entries@).take(i + 1));
                assert(class_views(self.entries@).take(i as int) + (seq![
                    class_views(self.entries@)[i as int],
                ] + upsert_class(class_views(self.entries@).skip(i + 1), c_view))
                    =~= class_views(self.entries@).take(i + 1) + upsert_class(
                    class_views(self.entries@).skip(i + 1),
                    c_view,
                ));
            }
            if str_eq(self.entries[i].name.as_str(), c.name.as_str()) {
                let ghost pre = class_views(self.entries@);
                self.entries.set(i, c);
                proof {
                    assert(pre.skip(i as int)[0].name == c_view.name);
                    assert(class_views(self.entries@) =~= pre.take(i as int) + (seq![c_view]
                        + pre.skip(i as int).drop_first()));
                }
                return ;
            }
            i += 1;
        }
        let ghost pre = class_views(self.entries@);
        let ghost n = pre.len() as int;
        self.entries.push(c);
        proof {
            assert(pre.skip(n) =~= Seq::<GClass>::empty());
            assert(class_views(self.entries@) =~= pre.take(n) + seq![c_view]);
        }
    }
}

/// `idx` with the first entry named `cn` given `act` as entry activity.
pub open spec fn set_initial(idx: Seq<GClass>, cn: Seq<char>, act: Seq<char>) -> Seq<GClass>
    decreases idx.len(),
{
    if idx.len() == 0 {
        idx
    } else if idx[0].name == cn {
        seq![
            GClass {
                name: idx[0].name,
                file: idx[0].file,
                supertypes: idx[0].supertypes,
                initial_aktivitet: Some(act),
            },
        ] + idx.drop_first()
    } else {
        seq![idx[0]] + set_initial(idx.drop_first(), cn, act)
    }
}

impl ClassIndex {
    /// Record `act` as the entry activity of the class named `cn`, if that
    /// class is indexed.
    pub fn record_initial(&mut self, cn: &str, act: String)
        ensures
            final(self)@ == set_initial(old(self)@, cn@, act@),
    {
        proof {
            assert(class_views(self.entries@).skip(0) =~= class_views(self.entries@));
            assert(class_views(self.entries@).take(0) + set_initial(
                class_views(self.entries@),
                cn@,
                act@,
            ) =~= set_initial(class_views(self.entries@), cn@, act@));
        }
        let mut i: usize = 0;
        while i < self.entries.len()
            invariant
                0 <= i <= self.entries@.len(),
                self.entries@ == old(self).entries@,
                forall|k: int| 0 <= k < i ==> class_views(self.entries@)[k].name != cn@,
                set_initial(class_views(self.entries@), cn@, act@) == class_views(
                    self.entries@,
                ).take(i as int) + set_initial(
                    class_views(self.entries@).skip(i as int),
                    cn@,
                    act@,
                ),
            decreases self.entries@.len() - i,
        {
            proof {
                assert(class_views(self.entries@).skip(i as int).drop_first() =~= class_views(
                    self.entries@,
                ).skip(i + 1));
                assert(class_views(self.entries@).take(i as int) + (seq![
                    class_views(self.entries@)[i as int],
                ] + set_initial(class_views(self.entries@).skip(i + 1), cn@, act@))
                    =~= class_views(self.entries@).take(i + 1) + set_initial(
                    class_views(self.entries@).skip(i + 1),
                    cn@,
                    act@,
                ));
            }
            if str_eq(self.entries[i].name.as_str(), cn) {
                let ghost pre = class_views(self.entries@);
                let updated = ClassInfo {
                    name: self.entries[i].name.clone(),
                    file: self.entries[i].file.clone(),
                    supertypes: clone_string_vec(&self.entries[i].supertypes),
                    initial_aktivitet: Some(act),
                };
                proof {
                    assert(updated@.supertypes == pre[i as int].supertypes);
                }
                self.entries.set(i, updated);
                proof {
                    assert(pre.skip(i as int)[0].name == cn@);
                    assert(class_views(self.entries@) =~= pre.take(i as int) + (seq![
                        GClass {
                            name: pre[i as int].name,
                            file: pre[i as int].file,
                            supertypes: pre[i as int].supertypes,
                            initial_aktivitet: Some(act@),
                        },
                    ] + pre.skip(i as int).drop_first()));
                }
                return ;
            }
            i += 1;
        }
        proof {
            let pre = class_views(self.entries@);
            let n = pre.len() as int;
            assert(pre.skip(n) =~= Seq::<GClass>::empty());
            assert(pre.take(n) =~= pre);
        }
    }
}

// ---------------------------------------------------------------------------
// Processor index
// ---------------------------------------------------------------------------

/// Ghost mirror of [`ProcessorEntry`].
pub ghost struct GProcEntry {
    pub aktivitet: Seq<char>,
    pub info: GProcessor,
}

/// One processor-index entry: the handled activity and what was extracted
/// for it.
pub struct ProcessorEntry {
    pub aktivitet: String,
    pub info: ProcessorInfo,
}

impl View for ProcessorEntry {
    type V = GProcEntry;

    open spec fn view(&self) -> GProcEntry {
        GProcEntry { aktivitet: self.aktivitet@, info: self.info@ }
    }
}

/// The views of a sequence of processor entries.
pub open spec fn proc_views(s: Seq<ProcessorEntry>) -> Seq<GProcEntry> {
    s.map_values(|e: ProcessorEntry| e@)
}

/// First entry for `name`, if any.
pub open spec fn lookup_proc(s: Seq<GProcEntry>, name: Seq<char>) -> Option<GProcessor>
    decreases s.len(),
{
    if s.len() == 0 {
        None
    } else if s[0].aktivitet == name {
        Some(s[0].info)
    } else {
        lookup_proc(s.drop_first(), name)
    }
}

/// Some transition in `s` targets `t`.
pub open spec fn has_target(s: Seq<GTransition>, t: Seq<char>) -> bool {
    exists|i: int| 0 <= i < s.len() && s[i].target == t
}

/// Append each transition of `add` whose target is not already present.
pub open spec fn merge_transitions(acc: Seq<GTransition>, add: Seq<GTransition>) -> Seq<
    GTransition,
>
    decreases add.len(),
{
    if add.len() == 0 {
        acc
    } else if has_target(acc, add[0].target) {
        merge_transitions(acc, add.drop_first())
    } else {
        merge_transitions(acc.push(add[0]), add.drop_first())
    }
}

/// `add` folded into an empty list: `add` without duplicate targets.
pub open spec fn dedup_transitions(add: Seq<GTransition>) -> Seq<GTransition> {
    merge_transitions(Seq::empty(), add)
}

/// No two transitions share a target.
pub open spec fn no_dup_targets(s: Seq<GTransition>) -> bool {
    forall|i: int, j: int| 0 <= i < j < s.len() ==> s[i].target != s[j].target
}

/// `e` with `ts` unioned into its transitions (by target identity) and `hm`
/// OR-ed into its manual-task flag.
pub open spec fn merge_entry(e: GProcEntry, ts: Seq<GTransition>, hm: bool) -> GProcEntry {
    GProcEntry {
        aktivitet: e.aktivitet,
        info: GProcessor {
            processor_class: e.info.processor_class,
            transitions: merge_transitions(e.info.transitions, ts),
            has_manuell_behandling: e.info.has_manuell_behandling || hm,
        },
    }
}

/// Fold one handler method's findings into the index: an existing entry for
/// `akt` is merged (its processor class kept), a missing one is created with
/// the transitions deduplicated by target.
pub open spec fn index_merge(
    s: Seq<GProcEntry>,
    akt: Seq<char>,
    pclass: Seq<char>,
    ts: Seq<GTransition>,
    hm: bool,
) -> Seq<GProcEntry>
    decreases s.len(),
{
    if s.len() == 0 {
        seq![
            GProcEntry {
                aktivitet: akt,
                info: GProcessor {
                    processor_class: pclass,
                    transitions: dedup_transitions(ts),
                    has_manuell_behandling: hm,
                },
            },
        ]
    } else if s[0].aktivitet == akt {
        seq![merge_entry(s[0], ts, hm)] + s.drop_first()
    } else {
        seq![s[0]] + index_merge(s.drop_first(), akt, pclass, ts, hm)
    }
}

/// Appending one transition to the merge input either changes nothing (its
/// target is already present) or appends it at the end.
pub proof fn lemma_merge_push(acc: Seq<GTransition>, add: Seq<GTransition>, x: GTransition)
    ensures
        merge_transitions(acc, add.push(x)) == (if has_target(merge_transitions(acc, add), x.target) {
            merge_transitions(acc, add)
        } else {
            merge_transitions(acc, add).push(x)
        }),
    decreases add.len(),
{
    if add.len() == 0 {
        assert(add.push(x)[0] == x);
        assert(add.push(x).drop_first() =~= Seq::<GTransition>::empty());
        assert(merge_transitions(acc, Seq::<GTransition>::empty()) == acc);
        assert(merge_transitions(acc.push(x), Seq::<GTransition>::empty()) == acc.push(x));
        assert(merge_transitions(acc, add.push(x)) == (if has_target(acc, x.target) {
            acc
        } else {
            acc.push(x)
        }));
    } else {
        assert(add.push(x).drop_first() =~= add.drop_first().push(x));
        if has_target(acc, add[0].target) {
            lemma_merge_push(acc, add.drop_first(), x);
        } else {
            lemma_merge_push(acc.push(add[0]), add.drop_first(), x);
        }
    }
}

/// Merging never introduces a duplicate target.
pub proof fn lemma_merge_no_dup(acc: Seq<GTransition>, add: Seq<GTransition>)
    requires
        no_dup_targets(acc),
    ensures
        no_dup_targets(merge_transitions(acc, add)),
    decreases add.len(),
{
    if add.len() > 0 {
        if has_target(acc, add[0].target) {
            lemma_merge_no_dup(acc, add.drop_first());
        } else {
            assert(no_dup_targets(acc.push(add[0])));
            lemma_merge_no_dup(acc.push(add[0]), add.drop_first());
        }
    }
}

/// The merged list holds a target exactly when one of its inputs does.
pub proof fn lemma_merge_has_target(acc: Seq<GTransition>, add: Seq<GTransition>, t: Seq<char>)
    ensures
        has_target(merge_transitions(acc, add), t) <==> (has_target(acc, t) || has_target(add, t)),
    decreases add.len(),
{
    if add.len() == 0 {
        assert(!has_target(add, t));
    } else {
        let rest = add.drop_first();
        assert(has_target(add, t) <==> (add[0].target == t || has_target(rest, t))) by {
            if has_target(add, t) {
                let i = choose|i: int| 0 <= i < add.len() && add[i].target == t;
                if i > 0 {
                    assert(rest[i - 1].target == t);
                }
            }
            if has_target(rest, t) {
                let i = choose|i: int| 0 <= i < rest.len() && rest[i].target == t;
                assert(add[i + 1].target == t);
            }
        }
        if has_target(acc, add[0].target) {
            lemma_merge_has_target(acc, rest, t);
        } else {
            lemma_merge_has_target(acc.push(add[0]), rest, t);
            assert(has_target(acc.push(add[0]), t) <==> (has_target(acc, t) || add[0].target
                == t)) by {
                if has_target(acc.push(add[0]), t) {
                    let i = choose|i: int|
                        0 <= i < acc.push(add[0]).len() && acc.push(add[0])[i].target == t;
                    if i < acc.len() {
                        assert(acc[i].target == t);
                    }
                }
                if has_target(acc, t) {
                    let i = choose|i: int| 0 <= i < acc.len() && acc[i].target == t;
                    assert(acc.push(add[0])[i].target == t);
                }
                if add[0].target == t {
                    assert(acc.push(add[0])[acc.len() as int].target == t);
                }
            }
        }
    }
}

/// All activities with at least one recognized handler method, keyed by the
/// activity name, in order of first discovery.
pub struct ProcessorIndex {
    pub entries: Vec<ProcessorEntry>,
}

impl View for ProcessorIndex {
    type V = Seq<GProcEntry>;

    open spec fn view(&self) -> Seq<GProcEntry> {
        proc_views(self.entries@)
    }
}

impl ProcessorIndex {
    /// An empty index.
    pub fn new() -> (r: ProcessorIndex)
        ensures
            r@ == Seq::<GProcEntry>::empty(),
    {
        let r = ProcessorIndex { entries: Vec::new() };
        proof {
            assert(r@ =~= Seq::<GProcEntry>::empty());
        }
        r
    }

    /// Number of indexed activities.
    pub fn len(&self) -> (r: usize)
        ensures
            r == self@.len(),
    {
        self.entries.len()
    }

    /// Look an activity's processor information up by name.
    pub fn get(&self, name: &str) -> (r: Option<&ProcessorInfo>)
        ensures
            match r {
                Some(p) => lookup_proc(self@, name@) == Some(p@),
                None => lookup_proc(self@, name@) is None,
            },
    {
        proof {
            assert(proc_views(self.entries@).skip(0) =~= proc_views(self.entries@));
        }
        let mut i: usize = 0;
        while i < self.entries.len()
            invariant
                0 <= i <= self.entries@.len(),
                forall|k: int| 0 <= k < i ==> proc_views(self.entries@)[k].aktivitet != name@,
                lookup_proc(self@, name@) == lookup_proc(
                    proc_views(self.entries@).skip(i as int),
                    name@,
                ),
            decreases self.entries@.len() - i,
        {
            proof {
                assert(proc_views(self.entries@).skip(i as int).drop_first() =~= proc_views(
                    self.entries@,
                ).skip(i + 1));
            }
            if str_eq(self.entries[i].aktivitet.as_str(), name) {
                return Some(&self.entries[i].info);
            }
            i += 1;
        }
        None
    }

    /// Fold one handler method's findings into the index.
    pub fn merge(
        &mut self,
        aktivitet: &str,
        processor_class: &str,
        next_aktiviteter: &Vec<NextAktivitet>,
        has_manuell: bool,
    )
        ensures
            final(self)@ == index_merge(
                old(self)@,
                aktivitet@,
                processor_class@,
                trans_views(next_aktiviteter@),
                has_manuell,
            ),
    {
        let ghost ts = trans_views(next_aktiviteter@);
        proof {
            assert(proc_views(self.entries@).skip(0) =~= proc_views(self.entries@));
            assert(proc_views(self.entries@).take(0) + index_merge(
                proc_views(self.entries@),
                aktivitet@,
                processor_class@,
                ts,
                has_manuell,
            ) =~= index_merge(
                proc_views(self.entries@),
                aktivitet@,
                processor_class@,
                ts,
                has_manuell,
            ));
        }
        let mut i: usize = 0;
        while i < self.entries.len()
            invariant
                0 <= i <= self.entries@.len(),
                self.entries@ == old(self).entries@,
                ts == trans_views(next_aktiviteter@),
                forall|k: int|
                    0 <= k < i ==> proc_views(self.entries@)[k].aktivitet != aktivitet@,
                index_merge(
                    proc_views(self.entries@),
                    aktivitet@,
                    processor_class@,
                    ts,
                    has_manuell,
                ) == proc_views(self.entries@).take(i as int) + index_merge(
                    proc_views(self.entries@).skip(i as int),
                    aktivitet@,
                    processor_class@,
                    ts,
                    has_manuell,
                ),
            decreases self.entries@.len() - i,
        {
            proof {
                assert(proc_views(self.entries@).skip(i as int).drop_first() =~= proc_views(
                    self.entries@,
                ).skip(i + 1));
                assert(proc_views(self.entries@).take(i as int) + (seq![
                    proc_views(self.entries@)[i as int],
                ] + index_merge(
                    proc_views(self.entries@).skip(i + 1),
                    aktivitet@,
                    processor_class@,
                    ts,
                    has_manuell,
                )) =~= proc_views(self.entries@).take(i + 1) + index_merge(
                    proc_views(self.entries@).skip(i + 1),
                    aktivitet@,
                    processor_class@,
                    ts,
                    has_manuell,
                ));
            }
            if str_eq(self.entries[i].aktivitet.as_str(), aktivitet) {
                let ghost pre = proc_views(self.entries@);
                let mut entry = self.entries.remove(i);
                merge_into_vec(&mut entry.info.next_aktiviteter, next_aktiviteter);
                if has_manuell {
                    entry.info.has_manuell_behandling = true;
                }
                proof {
                    assert(entry@ == merge_entry(pre[i as int], ts, has_manuell));
                }
                self.entries.insert(i, entry);
                proof {
                    assert(pre.skip(i as int)[0].aktivitet == aktivitet@);
                    assert(proc_views(self.entries@) =~= pre.take(i as int) + (seq![
                        merge_entry(pre[i as int], ts, has_manuell),
                    ] + pre.skip(i as int).drop_first()));
                }
                return ;
            }
            i += 1;
        }
        let ghost pre = proc_views(self.entries@);
        let ghost n = pre.len() as int;
        let mut fresh: Vec<NextAktivitet> = Vec::new();
        merge_into_vec(&mut fresh, next_aktiviteter);
        let entry = ProcessorEntry {
            aktivitet: aktivitet.to_owned(),
            info: ProcessorInfo {
                processor_class: processor_class.to_owned(),
                next_aktiviteter: fresh,
                has_manuell_behandling: has_manuell,
            },
        };
        proof {
            assert(trans_views(Seq::<NextAktivitet>::empty()) =~= Seq::<GTransition>::empty());
        }
        self.entries.push(entry);
        proof {
            assert(pre.skip(n) =~= Seq::<GProcEntry>::empty());
            assert(proc_views(self.entries@) =~= pre.take(n) + index_merge(
                pre.skip(n),
                aktivitet@,
                processor_class@,
                ts,
                has_manuell,
            ));
        }
    }
}

/// Clone one transition, preserving its view.
pub fn clone_transition(t: &NextAktivitet) -> (r: NextAktivitet)
    ensures
        r@ == t@,
{
    NextAktivitet {
        aktivitet_name: t.aktivitet_name.clone(),
        condition: clone_opt_string(&t.condition),
        is_collection: t.is_collection,
    }
}

/// Whether some transition in `v` already targets `t`.
pub fn has_target_vec(v: &Vec<NextAktivitet>, t: &str) -> (r: bool)
    ensures
        r == has_target(trans_views(v@), t@),
{
    let mut i: usize = 0;
    while i < v.len()
        invariant
            0 <= i <= v@.len(),
            forall|k: int| 0 <= k < i ==> trans_views(v@)[k].target != t@,
        decreases v@.len() - i,
    {
        if str_eq(v[i].aktivitet_name.as_str(), t) {
            proof {
                assert(trans_views(v@)[i as int].target == t@);
            }
            return true;
        }
        i += 1;
    }
    false
}

/// Append each transition of `add` whose target is not yet in `dst`.
pub fn merge_into_vec(dst: &mut Vec<NextAktivitet>, add: &Vec<NextAktivitet>)
    ensures
        trans_views(final(dst)@) == merge_transitions(trans_views(old(dst)@), trans_views(add@)),
{
    let ghost add_views = trans_views(add@);
    proof {
        assert(add_views.take(0) =~= Seq::<GTransition>::empty());
        assert(merge_transitions(trans_views(dst@), add_views.take(0)) == trans_views(dst@));
    }
    let mut j: usize = 0;
    while j < add.len()
        invariant
            0 <= j <= add@.len(),
            add_views == trans_views(add@),
            trans_views(dst@) == merge_transitions(trans_views(old(dst)@), add_views.take(j as int)),
        decreases add@.len() - j,
    {
        proof {
            assert(add_views.take(j as int).push(add_views[j as int]) =~= add_views.take(j + 1));
            lemma_merge_push(trans_views(old(dst)@), add_views.take(j as int), add_views[j as int]);
        }
        if !has_target_vec(dst, add[j].aktivitet_name.as_str()) {
            let ghost pre = trans_views(dst@);
            dst.push(clone_transition(&add[j]));
            proof {
                assert(trans_views(dst@) =~= pre.push(add_views[j as int]));
            }
        }
        j += 1;
    }
    proof {
        assert(add_views.take(add@.len() as int) =~= add_views);
    }
}

} // verus!
