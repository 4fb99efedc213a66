//! A registry of named rules that keeps them in the order in which they run.
use vstd::prelude::*;
use vstd::string::*;

verus! {

/// Why a change of a registry was refused.
#[derive(Clone, Copy, Debug, PartialEq, Eq, Structural)]
pub enum RulerError {
    /// The registry already holds a rule of that name.
    DuplicateName,
    /// The registry holds no rule of that name.
    NotFound,
}

/// One rule of a registry as the contracts see it.
pub ghost struct RuleView<T> {
    pub name: Seq<char>,
    pub rule: T,
    pub enabled: bool,
}

/// One rule of a registry: its name, its handler, and whether it runs.
pub struct RuleEntry<T> {
    name: String,
    rule: T,
    enabled: bool,
}

impl<T> View for RuleEntry<T> {
    type V = RuleView<T>;

    closed spec fn view(&self) -> RuleView<T> {
        RuleView { name: self.name@, rule: self.rule, enabled: self.enabled }
    }
}

/// True when `rules` holds a rule named `name`.
pub open spec fn registered<T>(rules: Seq<RuleView<T>>, name: Seq<char>) -> bool {
    exists|i: int| 0 <= i < rules.len() && (#[trigger] rules[i]).name == name
}

/// Index in `rules` of the rule named `name`, where there is one.
pub open spec fn find<T>(rules: Seq<RuleView<T>>, name: Seq<char>) -> int {
    choose|i: int| 0 <= i < rules.len() && (#[trigger] rules[i]).name == name
}

/// No two rules of `rules` share a name.
pub open spec fn unique<T>(rules: Seq<RuleView<T>>) -> bool {
    forall|i: int, j: int|
        0 <= i < j < rules.len() ==> (#[trigger] rules[i]).name != (#[trigger] rules[j]).name
}

/// A new rule: it runs until it is disabled.
pub open spec fn entry<T>(name: Seq<char>, rule: T) -> RuleView<T> {
    RuleView { name, rule, enabled: true }
}

/// `rules` after `add(name, rule)`: the new rule comes last. A name that
/// is taken changes nothing.
pub open spec fn added<T>(rules: Seq<RuleView<T>>, name: Seq<char>, rule: T) -> Seq<RuleView<T>> {
    if registered(rules, name) {
        rules
    } else {
        rules.push(entry(name, rule))
    }
}

/// `rules` after `before(anchor, name, rule)`: the new rule stands directly
/// before the anchor. A missing anchor or a name that is taken changes
/// nothing.
pub open spec fn inserted_before<T>(
    rules: Seq<RuleView<T>>,
    anchor: Seq<char>,
    name: Seq<char>,
    rule: T,
) -> Seq<RuleView<T>> {
    if !registered(rules, anchor) || registered(rules, name) {
        rules
    } else {
        rules.insert(find(rules, anchor), entry(name, rule))
    }
}

/// `rules` after `after(anchor, name, rule)`: the new rule stands directly
/// after the anchor. A missing anchor or a name that is taken changes
/// nothing.
pub open spec fn inserted_after<T>(
    rules: Seq<RuleView<T>>,
    anchor: Seq<char>,
    name: Seq<char>,
    rule: T,
) -> Seq<RuleView<T>> {
    if !registered(rules, anchor) || registered(rules, name) {
        rules
    } else {
        rules.insert(find(rules, anchor) + 1, entry(name, rule))
    }
}

/// `rules` without the rule named `name`.
pub open spec fn removed<T>(rules: Seq<RuleView<T>>, name: Seq<char>) -> Seq<RuleView<T>> {
    if registered(rules, name) {
        rules.remove(find(rules, name))
    } else {
        rules
    }
}

/// `rules` with the rule named `name` switched on or off, in its place.
pub open spec fn switched<T>(rules: Seq<RuleView<T>>, name: Seq<char>, on: bool) -> Seq<
    RuleView<T>,
> {
    if registered(rules, name) {
        let i = find(rules, name);
        rules.update(i, RuleView { name: rules[i].name, rule: rules[i].rule, enabled: on })
    } else {
        rules
    }
}

/// The handlers of the rules that are switched on, in the registry's order.
pub open spec fn enabled_rules<T>(rules: Seq<RuleView<T>>) -> Seq<T>
    decreases rules.len(),
{
    if rules.len() == 0 {
        Seq::empty()
    } else if rules.last().enabled {
        enabled_rules(rules.drop_last()).push(rules.last().rule)
    } else {
        enabled_rules(rules.drop_last())
    }
}

/// The names of `rules`, in the registry's order.
pub open spec fn names<T>(rules: Seq<RuleView<T>>) -> Seq<Seq<char>> {
    Seq::new(rules.len(), |i: int| rules[i].name)
}

/// Where names are unique, a rule's index is the one place that holds its
/// name.
pub proof fn lemma_find<T>(rules: Seq<RuleView<T>>, i: int)
    requires
        unique(rules),
        0 <= i < rules.len(),
    ensures
        registered(rules, rules[i].name),
        find(rules, rules[i].name) == i,
{
    let j = find(rules, rules[i].name);
    assert(0 <= j < rules.len() && rules[j].name == rules[i].name);
    if j < i {
        assert(rules[j].name != rules[i].name);
    }
    if i < j {
        assert(rules[i].name != rules[j].name);
    }
}

/// A registry of named rules in the order in which they run.
pub struct Ruler<T> {
    entries: Vec<RuleEntry<T>>,
}

/// The rules of `entries` as the contracts see them.
pub open spec fn views<T>(entries: Seq<RuleEntry<T>>) -> Seq<RuleView<T>> {
    Seq::new(entries.len(), |i: int| entries[i]@)
}

impl<T> View for Ruler<T> {
    type V = Seq<RuleView<T>>;

    closed spec fn view(&self) -> Seq<RuleView<T>> {
        views(self.entries@)
    }
}

impl<T> Ruler<T> {
    #[verifier::type_invariant]
    spec fn wf(&self) -> bool {
        unique(self@)
    }

    /// A registry without rules.
    pub fn new() -> (r: Ruler<T>)
        ensures
            r@ == Seq::<RuleView<T>>::empty(),
    {
        let r = Ruler { entries: Vec::new() };
        assert(r@ =~= Seq::<RuleView<T>>::empty());
        r
    }

    fn take(&mut self) -> (entries: Vec<RuleEntry<T>>)
        ensures
            entries == old(self).entries,
            unique(views(entries@)),
            final(self).entries@.len() == 0,
    {
        proof {
            use_type_invariant(&*self);
        }
        let mut entries: Vec<RuleEntry<T>> = Vec::new();
        core::mem::swap(&mut self.entries, &mut entries);
        entries
    }

    fn put(&mut self, entries: Vec<RuleEntry<T>>)
        requires
            unique(views(entries@)),
        ensures
            final(self).entries == entries,
    {
        let mut entries = entries;
        core::mem::swap(&mut self.entries, &mut entries);
    }

    /// Number of rules, switched on or off.
    pub fn len(&self) -> (n: usize)
        ensures
            n == self@.len(),
    {
        self.entries.len()
    }

    /// Index of the rule named `name`.
    pub fn position(&self, name: &str) -> (r: Option<usize>)
        ensures
            r is Some <==> registered(self@, name@),
            r matches Some(i) ==> i == find(self@, name@) && i < self@.len(),
            unique(self@),
    {
        proof {
            use_type_invariant(self);
        }
        let n: usize = self.entries.len();
        let mut i: usize = 0;
        while i < n
            invariant
                n == self.entries@.len(),
                i <= n,
                unique(self@),
                forall|j: int| 0 <= j < i ==> (#[trigger] self@[j]).name != name@,
            decreases n - i,
        {
            assert(self@[i as int] == self.entries@[i as int]@);
            if self.entries[i].name.as_str().eq(name) {
                proof {
                    lemma_find(self@, i as int);
                }
                return Some(i);
            }
            i = i + 1;
        }
        None
    }

    /// True when the registry holds a rule named `name`.
    pub fn contains(&self, name: &str) -> (b: bool)
        ensures
            b == registered(self@, name@),
    {
        self.position(name).is_some()
    }

    /// Whether the rule named `name` is switched on; `None` where the
    /// registry holds no such rule.
    pub fn is_enabled(&self, name: &str) -> (r: Option<bool>)
        ensures
            r is Some <==> registered(self@, name@),
            r matches Some(b) ==> b == self@[find(self@, name@)].enabled,
    {
        match self.position(name) {
            Some(i) => Some(self.entries[i].enabled),
            None => None,
        }
    }

    /// Appends the rule `rule` under the name `name`. Fails where the name
    /// is taken.
    pub fn add(&mut self, name: &str, rule: T) -> (r: Result<(), RulerError>)
        ensures
            registered(old(self)@, name@) ==> r == Err::<(), RulerError>(RulerError::DuplicateName),
            !registered(old(self)@, name@) ==> r is Ok,
            final(self)@ == added(old(self)@, name@, rule),
    {
        if self.position(name).is_some() {
            return Err(RulerError::DuplicateName);
        }
        let n: usize = self.entries.len();
        self.insert_at(n, name, rule);
        proof {
            assert(old(self)@.insert(n as int, entry(name@, rule)) =~= old(self)@.push(
                entry(name@, rule),
            ));
        }
        Ok(())
    }

    /// Puts the rule `rule`, named `name`, directly before the rule named
    /// `anchor`. Fails where the anchor is missing or the name is taken.
    pub fn before(&mut self, anchor: &str, name: &str, rule: T) -> (r: Result<(), RulerError>)
        ensures
            !registered(old(self)@, anchor@) ==> r == Err::<(), RulerError>(RulerError::NotFound),
            registered(old(self)@, anchor@) && registered(old(self)@, name@) ==> r == Err::<(), RulerError>(
                RulerError::DuplicateName,
            ),
            registered(old(self)@, anchor@) && !registered(old(self)@, name@) ==> r is Ok,
            final(self)@ == inserted_before(old(self)@, anchor@, name@, rule),
    {
        let at = match self.position(anchor) {
            Some(i) => i,
            None => {
                return Err(RulerError::NotFound);
            },
        };
        if self.position(name).is_some() {
            return Err(RulerError::DuplicateName);
        }
        self.insert_at(at, name, rule);
        Ok(())
    }

    /// Puts the rule `rule`, named `name`, directly after the rule named
    /// `anchor`. Fails where the anchor is missing or the name is taken.
    pub fn after(&mut self, anchor: &str, name: &str, rule: T) -> (r: Result<(), RulerError>)
        ensures
            !registered(old(self)@, anchor@) ==> r == Err::<(), RulerError>(RulerError::NotFound),
            registered(old(self)@, anchor@) && registered(old(self)@, name@) ==> r == Err::<(), RulerError>(
                RulerError::DuplicateName,
            ),
            registered(old(self)@, anchor@) && !registered(old(self)@, name@) ==> r is Ok,
            final(self)@ == inserted_after(old(self)@, anchor@, name@, rule),
    {
        let at = match self.position(anchor) {
            Some(i) => i,
            None => {
                return Err(RulerError::NotFound);
            },
        };
        if self.position(name).is_some() {
            return Err(RulerError::DuplicateName);
        }
        let n: usize = self.entries.len();
        let behind: usize = if at < n {
            at + 1
        } else {
            n
        };
        self.insert_at(behind, name, rule);
        Ok(())
    }

    fn insert_at(&mut self, at: usize, name: &str, rule: T)
        requires
            at <= old(self)@.len(),
            !registered(old(self)@, name@),
        ensures
            final(self)@ == old(self)@.insert(at as int, entry(name@, rule)),
    {
        let e = RuleEntry { name: String::from_str(name), rule, enabled: true };
        let mut entries = self.take();
        proof {
            assert(e@ == entry(name@, rule));
            let after = entries@.insert(at as int, e);
            assert(views(after) =~= views(entries@).insert(at as int, e@));
            lemma_unique_insert(views(entries@), at as int, e@);
        }
        entries.insert(at, e);
        self.put(entries);
    }

    /// Takes the rule named `name` out of the registry. Fails where there is
    /// no such rule.
    pub fn remove(&mut self, name: &str) -> (r: Result<(), RulerError>)
        ensures
            registered(old(self)@, name@) ==> r is Ok,
            !registered(old(self)@, name@) ==> r == Err::<(), RulerError>(RulerError::NotFound),
            final(self)@ == removed(old(self)@, name@),
    {
        match self.position(name) {
            Some(i) => {
                let mut entries = self.take();
                proof {
                    let after = entries@.remove(i as int);
                    assert(views(after) =~= views(entries@).remove(i as int));
                    lemma_unique_remove(views(entries@), i as int);
                }
                let _ = entries.remove(i);
                self.put(entries);
                Ok(())
            },
            None => Err(RulerError::NotFound),
        }
    }

    /// Switches the rule named `name` on. Fails where there is no such rule.
    pub fn enable(&mut self, name: &str) -> (r: Result<(), RulerError>)
        ensures
            registered(old(self)@, name@) ==> r is Ok,
            !registered(old(self)@, name@) ==> r == Err::<(), RulerError>(RulerError::NotFound),
            final(self)@ == switched(old(self)@, name@, true),
    {
        self.switch(name, true)
    }

    /// Switches the rule named `name` off. Fails where there is no such
    /// rule.
    pub fn disable(&mut self, name: &str) -> (r: Result<(), RulerError>)
        ensures
            registered(old(self)@, name@) ==> r is Ok,
            !registered(old(self)@, name@) ==> r == Err::<(), RulerError>(RulerError::NotFound),
            final(self)@ == switched(old(self)@, name@, false),
    {
        self.switch(name, false)
    }

    fn switch(&mut self, name: &str, on: bool) -> (r: Result<(), RulerError>)
        ensures
            registered(old(self)@, name@) ==> r is Ok,
            !registered(old(self)@, name@) ==> r == Err::<(), RulerError>(RulerError::NotFound),
            final(self)@ == switched(old(self)@, name@, on),
    {
        match self.position(name) {
            Some(i) => {
                let mut entries = self.take();
                let ghost before = views(entries@);
                proof {
                    lemma_unique_switch(before, name@, on);
                }
                entries[i].enabled = on;
                proof {
                    assert(views(entries@) =~= switched(before, name@, on));
                }
                self.put(entries);
                Ok(())
            },
            None => Err(RulerError::NotFound),
        }
    }

    /// The handlers of the rules that are switched on, in the order in which
    /// they run.
    pub fn iterate(&self) -> (r: Vec<&T>)
        ensures
            r@.len() == enabled_rules(self@).len(),
            forall|i: int| 0 <= i < r@.len() ==> *(#[trigger] r@[i]) == enabled_rules(self@)[i],
    {
        let mut out: Vec<&T> = Vec::new();
        let n: usize = self.entries.len();
        let mut i: usize = 0;
        while i < n
            invariant
                n == self.entries@.len(),
                i <= n,
                out@.len() == enabled_rules(self@.take(i as int)).len(),
                forall|k: int|
                    0 <= k < out@.len() ==> *(#[trigger] out@[k]) == enabled_rules(
                        self@.take(i as int),
                    )[k],
            decreases n - i,
        {
            proof {
                assert(self@.take(i + 1).drop_last() =~= self@.take(i as int));
                assert(self@.take(i + 1).last() == self.entries@[i as int]@);
            }
            if self.entries[i].enabled {
                out.push(&self.entries[i].rule);
            }
            i = i + 1;
        }
        proof {
            assert(self@.take(n as int) =~= self@);
        }
        out
    }
}

/// A rule under a new name keeps the names unique, wherever it is put.
pub proof fn lemma_unique_insert<T>(rules: Seq<RuleView<T>>, at: int, e: RuleView<T>)
    requires
        unique(rules),
        0 <= at <= rules.len(),
        !registered(rules, e.name),
    ensures
        unique(rules.insert(at, e)),
{
    let after = rules.insert(at, e);
    assert forall|i: int, j: int| 0 <= i < j < after.len() implies (#[trigger] after[i]).name != (
    #[trigger] after[j]).name by {
        let oi = if i < at {
            i
        } else {
            i - 1
        };
        let oj = if j < at {
            j
        } else {
            j - 1
        };
        if i == at {
            assert(rules[oj].name != e.name);
        } else if j == at {
            assert(rules[oi].name != e.name);
        } else {
            assert(rules[oi].name != rules[oj].name);
        }
    }
}

/// Taking a rule out keeps the names unique.
pub proof fn lemma_unique_remove<T>(rules: Seq<RuleView<T>>, at: int)
    requires
        unique(rules),
        0 <= at < rules.len(),
    ensures
        unique(rules.remove(at)),
{
    let after = rules.remove(at);
    assert forall|i: int, j: int| 0 <= i < j < after.len() implies (#[trigger] after[i]).name != (
    #[trigger] after[j]).name by {
        let oi = if i < at {
            i
        } else {
            i + 1
        };
        let oj = if j < at {
            j
        } else {
            j + 1
        };
        assert(rules[oi].name != rules[oj].name);
    }
}

/// Switching a rule on or off changes no name and no place.
pub proof fn lemma_unique_switch<T>(rules: Seq<RuleView<T>>, name: Seq<char>, on: bool)
    requires
        unique(rules),
    ensures
        unique(switched(rules, name, on)),
        names(switched(rules, name, on)) == names(rules),
        switched(rules, name, on).len() == rules.len(),
{
    let after = switched(rules, name, on);
    assert forall|i: int| 0 <= i < rules.len() implies (#[trigger] after[i]).name
        == rules[i].name by {}
    assert forall|i: int, j: int| 0 <= i < j < after.len() implies (#[trigger] after[i]).name != (
    #[trigger] after[j]).name by {
        assert(rules[i].name != rules[j].name);
    }
    assert(names(after) =~= names(rules));
}

/// One registration, as a value: what `add`, `before` and `after` are
/// called with.
pub ghost enum RulerOp<T> {
    Add { name: Seq<char>, rule: T },
    Before { anchor: Seq<char>, name: Seq<char>, rule: T },
    After { anchor: Seq<char>, name: Seq<char>, rule: T },
}

/// `rules` after the registration `op`.
pub open spec fn applied<T>(rules: Seq<RuleView<T>>, op: RulerOp<T>) -> Seq<RuleView<T>> {
    match op {
        RulerOp::Add { name, rule } => added(rules, name, rule),
        RulerOp::Before { anchor, name, rule } => inserted_before(rules, anchor, name, rule),
        RulerOp::After { anchor, name, rule } => inserted_after(rules, anchor, name, rule),
    }
}

/// `rules` after the registrations `ops`, made one after the other.
pub open spec fn applied_all<T>(rules: Seq<RuleView<T>>, ops: Seq<RulerOp<T>>) -> Seq<RuleView<T>>
    decreases ops.len(),
{
    if ops.len() == 0 {
        rules
    } else {
        applied(applied_all(rules, ops.drop_last()), ops.last())
    }
}

/// True when the registration `op` succeeds on `rules`.
pub open spec fn accepted<T>(rules: Seq<RuleView<T>>, op: RulerOp<T>) -> bool {
    match op {
        RulerOp::Add { name, rule } => !registered(rules, name),
        RulerOp::Before { anchor, name, rule } => registered(rules, anchor) && !registered(
            rules,
            name,
        ),
        RulerOp::After { anchor, name, rule } => registered(rules, anchor) && !registered(
            rules,
            name,
        ),
    }
}

/// True when the order of `rules` is the one that `op` asked for: the rule
/// is there, before its anchor or after it.
pub open spec fn respected<T>(rules: Seq<RuleView<T>>, op: RulerOp<T>) -> bool {
    match op {
        RulerOp::Add { name, rule } => registered(rules, name),
        RulerOp::Before { anchor, name, rule } => registered(rules, anchor) && registered(
            rules,
            name,
        ) && find(rules, name) < find(rules, anchor),
        RulerOp::After { anchor, name, rule } => registered(rules, anchor) && registered(
            rules,
            name,
        ) && find(rules, anchor) < find(rules, name),
    }
}

/// A registration leaves every rule that was there before and after every
/// rule that it stood before and after.
pub proof fn law_insert_keeps_order<T>(
    rules: Seq<RuleView<T>>,
    at: int,
    e: RuleView<T>,
    a: Seq<char>,
    b: Seq<char>,
)
    requires
        unique(rules),
        0 <= at <= rules.len(),
        !registered(rules, e.name),
        registered(rules, a),
        registered(rules, b),
        find(rules, a) < find(rules, b),
    ensures
        unique(rules.insert(at, e)),
        registered(rules.insert(at, e), a),
        registered(rules.insert(at, e), b),
        find(rules.insert(at, e), a) < find(rules.insert(at, e), b),
{
    let after = rules.insert(at, e);
    lemma_unique_insert(rules, at, e);
    let ia = find(rules, a);
    let ib = find(rules, b);
    let na = if ia < at {
        ia
    } else {
        ia + 1
    };
    let nb = if ib < at {
        ib
    } else {
        ib + 1
    };
    assert(after[na] == rules[ia]);
    assert(after[nb] == rules[ib]);
    lemma_find(after, na);
    lemma_find(after, nb);
}

/// `before` puts the new rule directly before its anchor, `after` directly
/// after it, and `add` puts it last.
pub proof fn law_registration_places<T>(rules: Seq<RuleView<T>>, op: RulerOp<T>)
    requires
        unique(rules),
        accepted(rules, op),
    ensures
        unique(applied(rules, op)),
        applied(rules, op).len() == rules.len() + 1,
        respected(applied(rules, op), op),
        op matches RulerOp::Add { name, rule } ==> find(applied(rules, op), name) == rules.len(),
        op matches RulerOp::Before { anchor, name, rule } ==> find(applied(rules, op), name) + 1
            == find(applied(rules, op), anchor),
        op matches RulerOp::After { anchor, name, rule } ==> find(applied(rules, op), name) == find(
            applied(rules, op),
            anchor,
        ) + 1,
{
    let after = applied(rules, op);
    match op {
        RulerOp::Add { name, rule } => {
            lemma_unique_insert(rules, rules.len() as int, entry(name, rule));
            assert(rules.insert(rules.len() as int, entry(name, rule)) =~= after);
            lemma_find(after, rules.len() as int);
        },
        RulerOp::Before { anchor, name, rule } => {
            let at = find(rules, anchor);
            lemma_unique_insert(rules, at, entry(name, rule));
            assert(after[at + 1] == rules[at]);
            lemma_find(after, at);
            lemma_find(after, at + 1);
        },
        RulerOp::After { anchor, name, rule } => {
            let at = find(rules, anchor);
            lemma_unique_insert(rules, at + 1, entry(name, rule));
            assert(after[at] == rules[at]);
            lemma_find(after, at);
            lemma_find(after, at + 1);
        },
    }
}

/// An order that a registration asked for stays as it is through any later
/// registration.
pub proof fn law_registration_keeps<T>(rules: Seq<RuleView<T>>, op: RulerOp<T>, earlier: RulerOp<T>)
    requires
        unique(rules),
        respected(rules, earlier),
    ensures
        unique(applied(rules, op)),
        respected(applied(rules, op), earlier),
{
    let after = applied(rules, op);
    if accepted(rules, op) {
        let (at, e) = match op {
            RulerOp::Add { name, rule } => (rules.len() as int, entry(name, rule)),
            RulerOp::Before { anchor, name, rule } => (find(rules, anchor), entry(name, rule)),
            RulerOp::After { anchor, name, rule } => (find(rules, anchor) + 1, entry(name, rule)),
        };
        assert(rules.insert(rules.len() as int, e) =~= rules.push(e));
        assert(after == rules.insert(at, e));
        lemma_unique_insert(rules, at, e);
        match earlier {
            RulerOp::Add { name, rule } => {
                let i = find(rules, name);
                let ni = if i < at {
                    i
                } else {
                    i + 1
                };
                assert(after[ni] == rules[i]);
            },
            RulerOp::Before { anchor, name, rule } => {
                law_insert_keeps_order(rules, at, e, name, anchor);
            },
            RulerOp::After { anchor, name, rule } => {
                law_insert_keeps_order(rules, at, e, anchor, name);
            },
        }
    }
}

/// After any run of `add`, `before` and `after`, the order that each
/// successful call asked for holds: the rule stands before its anchor, or
/// after it, whatever was registered later.
pub proof fn law_constraints_hold<T>(rules: Seq<RuleView<T>>, ops: Seq<RulerOp<T>>, k: int)
    requires
        unique(rules),
        0 <= k < ops.len(),
        accepted(applied_all(rules, ops.take(k)), ops[k]),
    ensures
        unique(applied_all(rules, ops)),
        respected(applied_all(rules, ops), ops[k]),
    decreases ops.len(),
{
    let head = ops.drop_last();
    lemma_applied_all_unique(rules, head);
    if k == ops.len() - 1 {
        assert(ops.take(k) =~= head);
        law_registration_places(applied_all(rules, head), ops[k]);
    } else {
        assert(head.take(k) =~= ops.take(k));
        law_constraints_hold(rules, head, k);
        law_registration_keeps(applied_all(rules, head), ops.last(), ops[k]);
    }
}

/// Registrations keep the names unique.
pub proof fn lemma_applied_all_unique<T>(rules: Seq<RuleView<T>>, ops: Seq<RulerOp<T>>)
    requires
        unique(rules),
    ensures
        unique(applied_all(rules, ops)),
    decreases ops.len(),
{
    if ops.len() > 0 {
        lemma_applied_all_unique(rules, ops.drop_last());
        let before = applied_all(rules, ops.drop_last());
        if accepted(before, ops.last()) {
            law_registration_places(before, ops.last());
        }
    }
}

/// Switching a rule off and on again leaves every rule in its place, and
/// the registry as if the rule had only been switched on: where it ran
/// before, the same handlers run in the same order.
pub proof fn law_disable_enable<T>(rules: Seq<RuleView<T>>, name: Seq<char>)
    requires
        unique(rules),
        registered(rules, name),
    ensures
        switched(switched(rules, name, false), name, true) == switched(rules, name, true),
        names(switched(switched(rules, name, false), name, true)) == names(rules),
        rules[find(rules, name)].enabled ==> switched(switched(rules, name, false), name, true)
            == rules,
        rules[find(rules, name)].enabled ==> enabled_rules(
            switched(switched(rules, name, false), name, true),
        ) == enabled_rules(rules),
{
    let i = find(rules, name);
    let off = switched(rules, name, false);
    lemma_unique_switch(rules, name, false);
    assert(off[i].name == name);
    lemma_find(off, i);
    lemma_unique_switch(off, name, true);
    assert(switched(off, name, true) =~= switched(rules, name, true));
    if rules[i].enabled {
        assert(switched(off, name, true) =~= rules);
    }
}

} // verus!
