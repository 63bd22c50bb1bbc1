//! The mode state machine: owns the descriptor table (one OS handle per
//! distinct hotkey identity, the handle being the descriptor's index),
//! tracks the current mode and the set of handles registered with the
//! operating system, and computes the unregister/register actions of every
//! mode transition.

use vstd::prelude::*;

use crate::normalize::DescModel;
use crate::normalize::HkmData;
use crate::normalize::ModKeys;
use crate::normalize::NormalizeError;
use crate::normalize::normalized;
use crate::whkdrc::HotkeyBinding;

verus! {

/// Two descriptors name the same hotkey: same mode, same modifier set,
/// same trigger key.  Command, mode action and process filter are payload,
/// not identity.
pub open spec fn same_combo(a: DescModel, b: DescModel) -> bool {
    a.mode == b.mode && a.mod_keys == b.mod_keys && a.vkey == b.vkey
}

/// The index of the descriptor in `t` with `d`'s identity, or `-1`.
pub open spec fn find_combo(t: Seq<DescModel>, d: DescModel) -> int
    decreases t.len(),
{
    if t.len() == 0 {
        -1
    } else if same_combo(t.last(), d) {
        t.len() - 1
    } else {
        find_combo(t.drop_last(), d)
    }
}

/// Inserting a descriptor into the table: a descriptor with the same
/// identity is overwritten in place (last write wins), a new identity is
/// appended (insertion order = document order).
pub open spec fn insert_desc(t: Seq<DescModel>, d: DescModel) -> Seq<DescModel> {
    let i = find_combo(t, d);
    if i >= 0 {
        t.update(i, d)
    } else {
        t.push(d)
    }
}

/// No two descriptors of the table share an identity.
pub open spec fn combos_unique(t: Seq<DescModel>) -> bool {
    forall|i: int, j: int|
        0 <= i < j < t.len() ==> !same_combo(#[trigger] t[i], #[trigger] t[j])
}

/// The descriptor table built from a sequence of bindings, in document
/// order, assuming every binding normalizes.
pub open spec fn table_of(bs: Seq<crate::whkdrc::BindingModel>) -> Seq<DescModel>
    recommends
        forall|k: int| 0 <= k < bs.len() ==> normalized(#[trigger] bs[k]) is Some,
    decreases bs.len(),
{
    if bs.len() == 0 {
        Seq::empty()
    } else {
        insert_desc(table_of(bs.drop_last()), normalized(bs.last())->0)
    }
}

/// The handles of the descriptors that belong to mode `m`.
pub open spec fn handles_of_mode(table: Seq<DescModel>, m: Option<Seq<char>>) -> Set<usize> {
    Set::new(|h: usize| h < table.len() && table[h as int].mode == m)
}

/// How one transition changes the set of registered handles: the old
/// mode's handles are unregistered, then the new mode's are registered.
pub open spec fn next_registered(
    reg: Set<usize>,
    table: Seq<DescModel>,
    from: Option<Seq<char>>,
    to: Option<Seq<char>>,
) -> Set<usize> {
    reg.difference(handles_of_mode(table, from)).union(handles_of_mode(table, to))
}

/// The mathematical state of a `ModeManager`.
#[verifier::ext_equal]
pub ghost struct ManagerModel {
    pub table: Seq<DescModel>,
    pub mode: Option<Seq<char>>,
    pub registered: Set<usize>,
}

/// The handle lists of one mode transition, for the OS layer to apply:
/// first unregister every handle of `unregister`, then register every
/// handle of `register`.
pub struct Activation {
    pub unregister: Vec<usize>,
    pub register: Vec<usize>,
}

/// The mode state machine.  `descriptors` is the registration table (the
/// handle of a descriptor is its index and is stable for the manager's
/// lifetime), `mode` the current mode, and `registered` the set of handles
/// currently registered with the operating system.
#[derive(Debug)]
pub struct ModeManager {
    pub descriptors: Vec<HkmData>,
    pub mode: Option<String>,
    pub registered: Vec<usize>,
}

impl View for ModeManager {
    type V = ManagerModel;

    open spec fn view(&self) -> ManagerModel {
        ManagerModel {
            table: self.descriptors.deep_view(),
            mode: self.mode.deep_view(),
            registered: self.registered@.to_set(),
        }
    }
}

fn opt_string_eq(a: &Option<String>, b: &Option<String>) -> (r: bool)
    ensures
        r == (a.deep_view() == b.deep_view()),
{
    match (a, b) {
        (None, None) => true,
        (Some(x), Some(y)) => *x == *y,
        _ => false,
    }
}

fn opt_mods_eq(a: &Option<ModKeys>, b: &Option<ModKeys>) -> (r: bool)
    ensures
        r == (a == b),
{
    match (a, b) {
        (None, None) => true,
        (Some(x), Some(y)) => *x == *y,
        _ => false,
    }
}

fn same_combo_exec(a: &HkmData, b: &HkmData) -> (r: bool)
    ensures
        r == same_combo(a@, b@),
{
    opt_string_eq(&a.mode, &b.mode) && opt_mods_eq(&a.mod_keys, &b.mod_keys) && a.vkey.name
        == b.vkey.name
}

proof fn lemma_find_combo_hit(t: Seq<DescModel>, d: DescModel, i: int)
    requires
        0 <= i < t.len(),
        same_combo(t[i], d),
        forall|j: int| 0 <= j < t.len() && j != i ==> !same_combo(#[trigger] t[j], d),
    ensures
        find_combo(t, d) == i,
    decreases t.len(),
{
    if i == t.len() - 1 {
    } else {
        lemma_find_combo_hit(t.drop_last(), d, i);
    }
}

proof fn lemma_find_combo_miss(t: Seq<DescModel>, d: DescModel)
    requires
        forall|j: int| 0 <= j < t.len() ==> !same_combo(#[trigger] t[j], d),
    ensures
        find_combo(t, d) == -1,
    decreases t.len(),
{
    if t.len() > 0 {
        lemma_find_combo_miss(t.drop_last(), d);
    }
}

impl ModeManager {
    /// All registered handles are valid and belong to the current mode, no
    /// handle is listed twice, and no two descriptors share an identity.
    pub open spec fn wf(self) -> bool {
        &&& self@.registered.subset_of(handles_of_mode(self@.table, self@.mode))
        &&& self.registered@.no_duplicates()
        &&& combos_unique(self@.table)
    }

    /// The registration invariant: the handles registered with the OS are
    /// exactly those of the current mode's descriptors.
    pub open spec fn registration_inv(self) -> bool {
        self@.registered == handles_of_mode(self@.table, self@.mode)
    }

    /// Normalizes every binding and builds the descriptor table in document
    /// order, later bindings overwriting earlier ones of the same identity.
    /// The manager starts in the default mode with nothing registered.
    /// Fails exactly when some binding's trigger key is unknown.
    pub fn new(bindings: &Vec<HotkeyBinding>) -> (r: Result<ModeManager, NormalizeError>)
        requires
            forall|k: int| 0 <= k < bindings@.len() ==> (#[trigger] bindings@[k])@.keys.len() >= 1,
        ensures
            match r {
                Ok(m) => {
                    &&& forall|k: int|
                        0 <= k < bindings@.len() ==> normalized((#[trigger] bindings@[k])@) is Some
                    &&& m@.table == table_of(bindings.deep_view())
                    &&& m@.mode is None
                    &&& m@.registered == Set::<usize>::empty()
                    &&& m.wf()
                },
                Err(e) => exists|k: int|
                    0 <= k < bindings@.len() && normalized((#[trigger] bindings@[k])@) is None,
            },
    {
        let mut descriptors: Vec<HkmData> = Vec::new();
        let mut k: usize = 0;
        while k < bindings.len()
            invariant
                k <= bindings@.len(),
                forall|j: int|
                    0 <= j < bindings@.len() ==> (#[trigger] bindings@[j])@.keys.len() >= 1,
                forall|j: int| 0 <= j < k ==> normalized((#[trigger] bindings@[j])@) is Some,
                descriptors.deep_view() == table_of(bindings.deep_view().take(k as int)),
                combos_unique(descriptors.deep_view()),
            decreases bindings@.len() - k,
        {
            let b = &bindings[k];
            match HkmData::try_from(b) {
                Err(e) => {
                    return Err(e);
                },
                Ok(d) => {
                    let ghost pre = descriptors.deep_view();
                    let mut idx: usize = 0;
                    let mut found = false;
                    while idx < descriptors.len() && !found
                        invariant
                            idx <= descriptors@.len(),
                            !found ==> forall|j: int|
                                0 <= j < idx ==> !same_combo(
                                    (#[trigger] descriptors@[j])@,
                                    d@,
                                ),
                            found ==> idx < descriptors@.len() && same_combo(
                                descriptors@[idx as int]@,
                                d@,
                            ),
                        decreases descriptors@.len() - idx + (if found {
                            0int
                        } else {
                            1int
                        }),
                    {
                        if same_combo_exec(&descriptors[idx], &d) {
                            found = true;
                        } else {
                            idx = idx + 1;
                        }
                    }
                    if found {
                        proof {
                            assert forall|j: int|
                                0 <= j < pre.len() && j != idx ==> !same_combo(
                                    #[trigger] pre[j],
                                    d@,
                                ) by {
                                if 0 <= j < pre.len() && j != idx && same_combo(pre[j], d@) {
                                    assert(same_combo(pre[idx as int], d@));
                                }
                            }
                            lemma_find_combo_hit(pre, d@, idx as int);
                        }
                        descriptors.set(idx, d);
                        proof {
                            assert(descriptors.deep_view() =~= insert_desc(pre, d@));
                        }
                    } else {
                        proof {
                            lemma_find_combo_miss(pre, d@);
                        }
                        descriptors.push(d);
                        proof {
                            assert(descriptors.deep_view() =~= insert_desc(pre, d@));
                        }
                    }
                    k = k + 1;
                    proof {
                        let bs = bindings.deep_view();
                        assert(bs.take(k as int).drop_last() =~= bs.take(k - 1));
                        assert(bs.take(k as int).last() == bindings@[k - 1]@);
                    }
                },
            }
        }
        proof {
            assert(bindings.deep_view().take(bindings@.len() as int) =~= bindings.deep_view());
        }
        let m = ModeManager { descriptors, mode: None, registered: Vec::new() };
        proof {
            assert(m@.registered =~= Set::<usize>::empty());
        }
        Ok(m)
    }

    /// The handles of every descriptor belonging to mode `m`, in handle
    /// order, each once.
    fn handles_for(&self, m: &Option<String>) -> (hs: Vec<usize>)
        ensures
            hs@.to_set() == handles_of_mode(self@.table, m.deep_view()),
            hs@.no_duplicates(),
    {
        let mut hs: Vec<usize> = Vec::new();
        let mut h: usize = 0;
        while h < self.descriptors.len()
            invariant
                h <= self.descriptors@.len(),
                forall|x: usize|
                    hs@.contains(x) <==> (x < h && (#[trigger] self@.table[x as int]).mode
                        == m.deep_view()),
                forall|i: int| 0 <= i < hs@.len() ==> #[trigger] hs@[i] < h,
                hs@.no_duplicates(),
            decreases self.descriptors@.len() - h,
        {
            if opt_string_eq(&self.descriptors[h].mode, m) {
                let ghost pre = hs@;
                hs.push(h);
                proof {
                    assert forall|x: usize| hs@.contains(x) <==> (pre.contains(x) || x == h) by {
                        if hs@.contains(x) {
                            let i = choose|i: int| 0 <= i < hs@.len() && hs@[i] == x;
                            if i < pre.len() {
                                assert(pre[i] == x);
                            }
                        }
                        if pre.contains(x) {
                            let i = choose|i: int| 0 <= i < pre.len() && pre[i] == x;
                            assert(hs@[i] == x);
                        }
                        if x == h {
                            assert(hs@[hs@.len() - 1] == x);
                        }
                    }
                }
            }
            h = h + 1;
        }
        proof {
            assert(hs@.to_set() =~= handles_of_mode(self@.table, m.deep_view()));
        }
        hs
    }

    fn copy_handles(v: &Vec<usize>) -> (r: Vec<usize>)
        ensures
            r@ == v@,
    {
        let mut r: Vec<usize> = Vec::new();
        let mut k: usize = 0;
        while k < v.len()
            invariant
                k <= v@.len(),
                r@ == v@.take(k as int),
            decreases v@.len() - k,
        {
            r.push(v[k]);
            k = k + 1;
            proof {
                assert(v@.take(k as int) =~= v@.take(k - 1).push(v@[k - 1]));
            }
        }
        proof {
            assert(v@.take(v@.len() as int) =~= v@);
        }
        r
    }

    /// Switches to `mode`: unregisters every handle of the current mode,
    /// sets the current mode, and registers every handle of the target
    /// mode.  A mode without entries (unknown or empty) yields an empty
    /// register list and leaves nothing registered.  The returned lists are
    /// for the OS layer to apply, unregister first.
    pub fn activate_mode(&mut self, mode: &Option<String>) -> (acts: Activation)
        requires
            old(self).wf(),
        ensures
            final(self).wf(),
            final(self).registration_inv(),
            final(self)@.table == old(self)@.table,
            final(self)@.mode == mode.deep_view(),
            acts.unregister@.to_set() == handles_of_mode(old(self)@.table, old(self)@.mode),
            acts.register@.to_set() == handles_of_mode(old(self)@.table, mode.deep_view()),
            acts.unregister@.no_duplicates(),
            acts.register@.no_duplicates(),
            final(self)@.registered == next_registered(
                old(self)@.registered,
                old(self)@.table,
                old(self)@.mode,
                mode.deep_view(),
            ),
    {
        let unregister = self.handles_for(&self.mode);
        let register = self.handles_for(mode);
        self.mode = match mode {
            Some(s) => Some(s.clone()),
            None => None,
        };
        self.registered = Self::copy_handles(&register);
        proof {
            assert(self@.registered =~= next_registered(
                old(self)@.registered,
                old(self)@.table,
                old(self)@.mode,
                mode.deep_view(),
            ));
        }
        Activation { unregister, register }
    }

    /// Resolves a fired handle to its descriptor; a stale or foreign handle
    /// resolves to nothing and the event is dropped.
    pub fn resolve_event(&self, handle: usize) -> (r: Option<&HkmData>)
        ensures
            match r {
                Some(d) => handle < self@.table.len() && d@ == self@.table[handle as int],
                None => handle >= self@.table.len(),
            },
    {
        if handle < self.descriptors.len() {
            Some(&self.descriptors[handle])
        } else {
            None
        }
    }
}

/// Whether a binding's process filter lets its command fire, given the
/// foreground process (nothing, when the query failed).  A binding without
/// a filter always fires; with a filter it fires exactly on a match.
pub open spec fn spec_filter_matches(f: Option<Seq<char>>, fg: Option<Seq<char>>) -> bool {
    match f {
        None => true,
        Some(p) => fg == Some(p),
    }
}

/// Decides whether a command may fire under a process filter.
pub fn filter_matches(filter: &Option<String>, foreground: &Option<String>) -> (r: bool)
    ensures
        r == spec_filter_matches(filter.deep_view(), foreground.deep_view()),
{
    match (filter, foreground) {
        (None, _) => true,
        (Some(p), Some(g)) => *p == *g,
        (Some(_), None) => false,
    }
}

/// Re-activating the mode that is already current is a no-op on the
/// registration set: unregistering a mode's handles and then registering
/// that same mode's handles restores exactly the set that was registered.
pub proof fn lemma_activate_idempotent(
    table: Seq<DescModel>,
    reg: Set<usize>,
    m: Option<Seq<char>>,
)
    requires
        reg == handles_of_mode(table, m),
    ensures
        next_registered(reg, table, m, m) == reg,
{
    assert(next_registered(reg, table, m, m) =~= reg);
}

/// Every transition from a well-formed state restores the registration
/// invariant: whatever was registered before, afterwards exactly the
/// target mode's handles are registered.
pub proof fn lemma_transition_inv(
    table: Seq<DescModel>,
    reg: Set<usize>,
    from: Option<Seq<char>>,
    to: Option<Seq<char>>,
)
    requires
        reg.subset_of(handles_of_mode(table, from)),
    ensures
        next_registered(reg, table, from, to) == handles_of_mode(table, to),
{
    assert(next_registered(reg, table, from, to) =~= handles_of_mode(table, to));
}

/// Activating a mode that no descriptor belongs to (unknown or empty)
/// leaves zero handles registered.
pub proof fn lemma_unknown_mode_empty(table: Seq<DescModel>, m: Option<Seq<char>>)
    requires
        forall|h: int| 0 <= h < table.len() ==> (#[trigger] table[h]).mode != m,
    ensures
        handles_of_mode(table, m) == Set::<usize>::empty(),
{
    assert(handles_of_mode(table, m) =~= Set::<usize>::empty());
}

} // verus!
