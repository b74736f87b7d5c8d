use vstd::prelude::*;

use crate::error::Error;
use crate::runtime::{Descriptor, Runtime, RuntimeModel, Shell, ShellKind, Slot};
use crate::userdata::{
    check_meta_fields, first_meta_field_error, NonStaticMethod, NonStaticUserDataFields,
    NonStaticUserDataMethods,
};
use crate::laws::lemma_detached_all;
use crate::value::{AnyUserData, Function, MetaMethod, Value};

verus! {

/// How the registry strips one kind of shell at scope end.
#[derive(Clone, Copy, Debug, PartialEq, Eq, Structural)]
pub enum Teardown {
    /// Detach a callback's state and its back-reference.
    Callback,
    /// Detach the starter's state and back-reference, and the computation if one
    /// was started.
    AsyncCallback,
    /// Detach the value of a globally typed object.
    UserData,
    /// Deregister the object's throwaway descriptor and detach its value.
    NonStaticUserData,
}

/// Whether teardown action `t` is the one for shells of `kind`.
pub open spec fn teardown_fits(t: Teardown, kind: ShellKind) -> bool {
    match t {
        Teardown::Callback => kind is Function,
        Teardown::AsyncCallback => kind is AsyncFunction,
        Teardown::UserData => kind is UserData,
        Teardown::NonStaticUserData => kind is NonStaticUserData,
    }
}

/// A region during which callbacks and objects may capture host data that does
/// not outlive it. Every resource it creates is registered, and `close`, which
/// ends the region, detaches all of them.
pub struct Scope {
    id: u64,
    destructors: Vec<(usize, Teardown)>,
}

/// The mathematical state of a [`Scope`]: its identity, and the registered
/// shells with their teardown actions, in order of creation.
pub struct ScopeModel {
    pub id: u64,
    pub entries: Seq<(usize, Teardown)>,
}

impl View for Scope {
    type V = ScopeModel;

    closed spec fn view(&self) -> ScopeModel {
        ScopeModel { id: self.id, entries: self.destructors@ }
    }
}

/// The runtime once the shells of `entries` are detached, in order.
pub open spec fn detached_all<T>(rt: RuntimeModel<T>, entries: Seq<(usize, Teardown)>) -> RuntimeModel<T>
    decreases entries.len(),
{
    if entries.len() == 0 {
        rt
    } else {
        detached_all(rt, entries.drop_last()).detached(entries.last().0 as int)
    }
}

/// The host values that detaching the shells of `entries`, in order, hands back.
pub open spec fn released_all<T>(rt: RuntimeModel<T>, entries: Seq<(usize, Teardown)>) -> Seq<T>
    decreases entries.len(),
{
    if entries.len() == 0 {
        Seq::empty()
    } else {
        released_all(rt, entries.drop_last()) + detached_all(rt, entries.drop_last()).released(
            entries.last().0 as int,
        )
    }
}

/// Shell `f` is a callback of scope `owner` that runs the closure of `m`, bound
/// to object `o` if `m` receives the object.
pub open spec fn wraps<T>(rt: RuntimeModel<T>, owner: u64, f: Function, m: NonStaticMethod<T>, o: usize) -> bool {
    &&& f.id < rt.shells.len()
    &&& rt.shells[f.id as int].kind == (ShellKind::Function {
        mutable: m.is_mutable(),
        receiver: if m.takes_self() {
            Some(o)
        } else {
            None
        },
    })
    &&& rt.shells[f.id as int].owner == owner
    &&& rt.payloads[f.id as int] == Slot::Held(m.closure())
}

/// `table` binds, in order, the names of `decl` to callbacks that wrap its
/// declarations for object `o`.
pub open spec fn binds<T, K>(
    rt: RuntimeModel<T>,
    owner: u64,
    table: Seq<(K, Function)>,
    decl: Seq<(K, NonStaticMethod<T>)>,
    o: usize,
) -> bool {
    &&& table.len() == decl.len()
    &&& forall|k: int|
        0 <= k < table.len() ==> (#[trigger] table[k]).0 == decl[k].0 && wraps(
            rt,
            owner,
            table[k].1,
            decl[k].1,
            o,
        )
}

/// An auxiliary lookup table exists only for a non-empty declaration list, and
/// then binds it.
pub open spec fn binds_table<T>(
    rt: RuntimeModel<T>,
    owner: u64,
    table: Option<Vec<(Vec<u8>, Function)>>,
    decl: Seq<(Vec<u8>, NonStaticMethod<T>)>,
    o: usize,
) -> bool {
    match table {
        Some(t) => decl.len() > 0 && binds(rt, owner, t@, decl, o),
        None => decl.len() == 0,
    }
}

/// The meta entries start with the meta methods, bound as callbacks, and end
/// with the meta fields as declared.
pub open spec fn binds_meta<T>(
    rt: RuntimeModel<T>,
    owner: u64,
    meta: Seq<(MetaMethod, Value)>,
    methods: Seq<(MetaMethod, NonStaticMethod<T>)>,
    fields: Seq<(MetaMethod, Value)>,
    o: usize,
) -> bool {
    &&& meta.len() == methods.len() + fields.len()
    &&& forall|k: int|
        0 <= k < methods.len() ==> (#[trigger] meta[k]).0 == methods[k].0 && meta[k].1 is Function
            && wraps(rt, owner, meta[k].1->Function_0, methods[k].1, o)
    &&& meta.subrange(methods.len() as int, meta.len() as int) == fields
}

/// `next` changes nothing of `rt` but appends shells: every existing shell keeps
/// its kind, owner and payloads.
pub open spec fn appends_only<T>(rt: RuntimeModel<T>, next: RuntimeModel<T>) -> bool {
    &&& rt.shells.len() <= next.shells.len()
    &&& next.metatables == rt.metatables
    &&& next.registered == rt.registered
    &&& next.next_scope == rt.next_scope
    &&& forall|j: int|
        0 <= j < rt.shells.len() ==> {
            &&& #[trigger] next.shells[j] == rt.shells[j]
            &&& next.payloads[j] == rt.payloads[j]
            &&& next.pending[j] == rt.pending[j]
        }
}

/// `next` leaves every shell of `rt` as it was, payloads included.
pub open spec fn keeps_old_shells<T>(rt: RuntimeModel<T>, next: RuntimeModel<T>) -> bool {
    &&& rt.shells.len() <= next.shells.len()
    &&& forall|j: int|
        0 <= j < rt.shells.len() ==> {
            &&& #[trigger] next.shells[j] == rt.shells[j]
            &&& next.payloads[j] == rt.payloads[j]
            &&& next.pending[j] == rt.pending[j]
        }
}

/// All entries of `entries` after the first `n` register callbacks.
pub open spec fn all_callbacks(entries: Seq<(usize, Teardown)>, n: int) -> bool {
    forall|k: int| n <= k < entries.len() ==> (#[trigger] entries[k]).1 == Teardown::Callback
}

/// The scope with identity `id` and registry `e`.
pub open spec fn scope_model(e: Seq<(usize, Teardown)>, id: u64) -> ScopeModel {
    ScopeModel { id, entries: e }
}

/// Appending is transitive.
pub proof fn lemma_appends_trans<T>(a: RuntimeModel<T>, b: RuntimeModel<T>, c: RuntimeModel<T>)
    requires
        appends_only(a, b),
        appends_only(b, c),
    ensures
        appends_only(a, c),
{
    assert forall|j: int| 0 <= j < a.shells.len() implies {
        &&& #[trigger] c.shells[j] == a.shells[j]
        &&& c.payloads[j] == a.payloads[j]
        &&& c.pending[j] == a.pending[j]
    } by {
        assert(b.shells[j] == a.shells[j]);
    }
}

/// Bound callbacks stay bound while shells are appended.
pub proof fn lemma_binds_appended<T, K>(
    rt: RuntimeModel<T>,
    next: RuntimeModel<T>,
    owner: u64,
    table: Seq<(K, Function)>,
    decl: Seq<(K, NonStaticMethod<T>)>,
    o: usize,
)
    requires
        binds(rt, owner, table, decl, o),
        appends_only(rt, next),
    ensures
        binds(next, owner, table, decl, o),
{
    assert forall|k: int| 0 <= k < table.len() implies (#[trigger] table[k]).0 == decl[k].0
        && wraps(next, owner, table[k].1, decl[k].1, o) by {
        let id = table[k].1.id as int;
        assert(next.shells[id] == rt.shells[id]);
    }
}

/// Bound callbacks stay bound when a descriptor is attached to reserved storage.
pub proof fn lemma_binds_attached<T, K>(
    rt: RuntimeModel<T>,
    o: usize,
    d: Descriptor,
    v: T,
    owner: u64,
    table: Seq<(K, Function)>,
    decl: Seq<(K, NonStaticMethod<T>)>,
)
    requires
        rt.wf(),
        binds(rt, owner, table, decl, o),
        o < rt.shells.len(),
        rt.shells[o as int].kind is Reserved,
    ensures
        binds(rt.attached(o as int, d, v), owner, table, decl, o),
{
    let next = rt.attached(o as int, d, v);
    assert forall|k: int| 0 <= k < table.len() implies (#[trigger] table[k]).0 == decl[k].0
        && wraps(next, owner, table[k].1, decl[k].1, o) by {
        let id = table[k].1.id as int;
        assert(wraps(rt, owner, table[k].1, decl[k].1, o));
        assert(id != o as int);
        assert(next.shells[id] == rt.shells[id]);
        assert(next.payloads[id] == rt.payloads[id]);
    }
}

/// A scope stays well formed, and keeps owning its shells, in a runtime that
/// keeps them.
pub proof fn lemma_scope_kept<T>(s: ScopeModel, rt: RuntimeModel<T>, next: RuntimeModel<T>)
    requires
        s.wf_in(rt),
        keeps_shells(rt, next),
    ensures
        s.wf_in(next),
        s.owns(rt) ==> s.owns(next),
{
    if s.owns(rt) {
        assert forall|k: int| 0 <= k < s.entries.len() implies {
            let (id, t) = #[trigger] s.entries[k];
            &&& next.shells[id as int].owner == s.id
            &&& teardown_fits(t, next.shells[id as int].kind)
        } by {
            let id = s.entries[k].0 as int;
            assert(next.shells[id].owner == rt.shells[id].owner);
        }
    }
}

/// A scope that registers one more shell of its own, of the kind its action
/// fits, keeps owning its shells.
pub proof fn lemma_owns_extended<T>(
    s: ScopeModel,
    t: ScopeModel,
    rt: RuntimeModel<T>,
    next: RuntimeModel<T>,
    e: (usize, Teardown),
)
    requires
        s.wf_in(rt),
        keeps_shells(rt, next),
        t.id == s.id,
        t.entries == s.entries.push(e),
        next.shells[e.0 as int].owner == s.id,
        teardown_fits(e.1, next.shells[e.0 as int].kind),
    ensures
        s.owns(rt) ==> t.owns(next),
{
    lemma_scope_kept(s, rt, next);
    if s.owns(rt) {
        assert forall|k: int| 0 <= k < t.entries.len() implies {
            let (id, a) = #[trigger] t.entries[k];
            &&& next.shells[id as int].owner == t.id
            &&& teardown_fits(a, next.shells[id as int].kind)
        } by {
            if k < s.entries.len() {
                assert(t.entries[k] == s.entries[k]);
            } else {
                assert(t.entries[k] == e);
            }
        }
    }
}

impl ScopeModel {
    /// The registry names only shells that exist.
    pub open spec fn wf_in<T>(self, rt: RuntimeModel<T>) -> bool {
        &&& self.id < rt.next_scope
        &&& forall|k: int| 0 <= k < self.entries.len() ==> (#[trigger] self.entries[k]).0 < rt.shells.len()
    }

    /// Every registered shell is inert in `rt`.
    pub open spec fn all_inert<T>(self, rt: RuntimeModel<T>) -> bool {
        forall|k: int| 0 <= k < self.entries.len() ==> rt.inert((#[trigger] self.entries[k]).0 as int)
    }

    /// The descriptor of every registered object of `before` is out of the table
    /// in `after`.
    pub open spec fn all_deregistered<T>(self, before: RuntimeModel<T>, after: RuntimeModel<T>) -> bool {
        forall|k: int|
            0 <= k < self.entries.len() ==> {
                let id = (#[trigger] self.entries[k]).0 as int;
                before.shells[id].kind is NonStaticUserData ==> !after.registered[before.shells[id].kind->descriptor as int]
            }
    }

    /// Every registered shell was made by this scope, and its teardown action
    /// is the one for its kind.
    pub open spec fn owns<T>(self, rt: RuntimeModel<T>) -> bool {
        forall|k: int|
            0 <= k < self.entries.len() ==> {
                let (id, t) = #[trigger] self.entries[k];
                &&& rt.shells[id as int].owner == self.id
                &&& teardown_fits(t, rt.shells[id as int].kind)
            }
    }
}

/// `next` keeps every shell of `rt` where it was: same owner, and same kind
/// unless it was reserved storage.
pub open spec fn keeps_shells<T>(rt: RuntimeModel<T>, next: RuntimeModel<T>) -> bool {
    &&& rt.shells.len() <= next.shells.len()
    &&& rt.next_scope <= next.next_scope
    &&& forall|j: int|
        0 <= j < rt.shells.len() ==> {
            &&& (#[trigger] next.shells[j]).owner == rt.shells[j].owner
            &&& (rt.shells[j].kind !is Reserved ==> next.shells[j].kind == rt.shells[j].kind)
        }
}

impl Scope {
    /// Opens a scope with an empty registry.
    pub fn new<T>(rt: &mut Runtime<T>) -> (r: Scope)
        requires
            old(rt)@.wf(),
            old(rt)@.next_scope < u64::MAX,
        ensures
            final(rt)@.wf(),
            r@.id == old(rt)@.next_scope,
            r@.entries.len() == 0,
            r@.wf_in(final(rt)@),
            final(rt)@ == (RuntimeModel { next_scope: (r@.id + 1) as u64, ..old(rt)@ }),
    {
        let id = rt.new_scope();
        Scope { id, destructors: Vec::new() }
    }

    /// Number of resources registered and not yet torn down.
    pub fn resource_count(&self) -> (r: usize)
        ensures
            r == self@.entries.len(),
    {
        self.destructors.len()
    }

    /// Makes a callable shell whose hidden payload is `state`, and registers it.
    fn create_callback<T>(&mut self, rt: &mut Runtime<T>, state: T, mutable: bool, receiver: Option<
        usize,
    >) -> (f: Function)
        requires
            old(self)@.wf_in(old(rt)@),
            old(rt)@.wf(),
            old(rt)@.kind_fits(ShellKind::Function { mutable, receiver }),
        ensures
            final(rt)@.wf(),
            final(self)@.wf_in(final(rt)@),
            old(self)@.owns(old(rt)@) ==> final(self)@.owns(final(rt)@),
            f.id == old(rt)@.shells.len(),
            final(rt)@ == old(rt)@.allocated(
                ShellKind::Function { mutable, receiver },
                old(self)@.id,
                Slot::Held(state),
            ),
            final(self)@ == (ScopeModel {
                entries: old(self)@.entries.push((f.id, Teardown::Callback)),
                ..old(self)@
            }),
    {
        let id = rt.alloc_shell(ShellKind::Function { mutable, receiver }, self.id, Slot::Held(state));
        self.destructors.push((id, Teardown::Callback));
        proof {
            lemma_scope_kept(old(self)@, old(rt)@, rt@);
            lemma_owns_extended(old(self)@, self@, old(rt)@, rt@, (id, Teardown::Callback));
        }
        Function { id }
    }

    /// Wraps a callback that may run reentrantly; its state stays attached while
    /// it runs.
    pub fn create_function<T>(&mut self, rt: &mut Runtime<T>, func: T) -> (r: Result<Function, Error>)
        requires
            old(self)@.wf_in(old(rt)@),
            old(rt)@.wf(),
        ensures
            final(rt)@.wf(),
            final(self)@.wf_in(final(rt)@),
            old(self)@.owns(old(rt)@) ==> final(self)@.owns(final(rt)@),
            r == Ok::<Function, Error>(Function { id: old(rt)@.shells.len() as usize }),
            final(rt)@ == old(rt)@.allocated(
                ShellKind::Function { mutable: false, receiver: None },
                old(self)@.id,
                Slot::Held(func),
            ),
            final(self)@ == (ScopeModel {
                entries: old(self)@.entries.push((old(rt)@.shells.len() as usize, Teardown::Callback)),
                ..old(self)@
            }),
    {
        Ok(self.create_callback(rt, func, false, None))
    }

    /// Wraps a mutable callback: its state is lent out while it runs, so that a
    /// reentrant call fails with `RecursiveMutCallback`.
    pub fn create_function_mut<T>(&mut self, rt: &mut Runtime<T>, func: T) -> (r: Result<
        Function,
        Error,
    >)
        requires
            old(self)@.wf_in(old(rt)@),
            old(rt)@.wf(),
        ensures
            final(rt)@.wf(),
            final(self)@.wf_in(final(rt)@),
            old(self)@.owns(old(rt)@) ==> final(self)@.owns(final(rt)@),
            r == Ok::<Function, Error>(Function { id: old(rt)@.shells.len() as usize }),
            final(rt)@ == old(rt)@.allocated(
                ShellKind::Function { mutable: true, receiver: None },
                old(self)@.id,
                Slot::Held(func),
            ),
            final(self)@ == (ScopeModel {
                entries: old(self)@.entries.push((old(rt)@.shells.len() as usize, Teardown::Callback)),
                ..old(self)@
            }),
    {
        Ok(self.create_callback(rt, func, true, None))
    }

    /// Wraps a callback whose calls start computations that are then polled.
    pub fn create_async_function<T>(&mut self, rt: &mut Runtime<T>, func: T) -> (r: Result<
        Function,
        Error,
    >)
        requires
            old(self)@.wf_in(old(rt)@),
            old(rt)@.wf(),
        ensures
            final(rt)@.wf(),
            final(self)@.wf_in(final(rt)@),
            old(self)@.owns(old(rt)@) ==> final(self)@.owns(final(rt)@),
            r == Ok::<Function, Error>(Function { id: old(rt)@.shells.len() as usize }),
            final(rt)@ == old(rt)@.allocated(ShellKind::AsyncFunction, old(self)@.id, Slot::Held(func)),
            final(self)@ == (ScopeModel {
                entries: old(self)@.entries.push((old(rt)@.shells.len() as usize, Teardown::AsyncCallback)),
                ..old(self)@
            }),
    {
        let id = rt.alloc_shell(ShellKind::AsyncFunction, self.id, Slot::Held(func));
        self.destructors.push((id, Teardown::AsyncCallback));
        proof {
            lemma_scope_kept(old(self)@, old(rt)@, rt@);
            lemma_owns_extended(old(self)@, self@, old(rt)@, rt@, (id, Teardown::AsyncCallback));
        }
        Ok(Function { id })
    }

    /// Wraps a value whose type is registered globally.
    pub fn create_userdata<T>(&mut self, rt: &mut Runtime<T>, data: T) -> (r: Result<
        AnyUserData,
        Error,
    >)
        requires
            old(self)@.wf_in(old(rt)@),
            old(rt)@.wf(),
        ensures
            final(rt)@.wf(),
            final(self)@.wf_in(final(rt)@),
            old(self)@.owns(old(rt)@) ==> final(self)@.owns(final(rt)@),
            r == Ok::<AnyUserData, Error>(AnyUserData { id: old(rt)@.shells.len() as usize }),
            final(rt)@ == old(rt)@.allocated(
                ShellKind::UserData { serializable: false },
                old(self)@.id,
                Slot::Held(data),
            ),
            final(self)@ == (ScopeModel {
                entries: old(self)@.entries.push((old(rt)@.shells.len() as usize, Teardown::UserData)),
                ..old(self)@
            }),
    {
        self.create_userdata_inner(rt, data, false)
    }

    /// Wraps a value whose type is registered globally and that can be serialized.
    pub fn create_ser_userdata<T>(&mut self, rt: &mut Runtime<T>, data: T) -> (r: Result<
        AnyUserData,
        Error,
    >)
        requires
            old(self)@.wf_in(old(rt)@),
            old(rt)@.wf(),
        ensures
            final(rt)@.wf(),
            final(self)@.wf_in(final(rt)@),
            old(self)@.owns(old(rt)@) ==> final(self)@.owns(final(rt)@),
            r == Ok::<AnyUserData, Error>(AnyUserData { id: old(rt)@.shells.len() as usize }),
            final(rt)@ == old(rt)@.allocated(
                ShellKind::UserData { serializable: true },
                old(self)@.id,
                Slot::Held(data),
            ),
            final(self)@ == (ScopeModel {
                entries: old(self)@.entries.push((old(rt)@.shells.len() as usize, Teardown::UserData)),
                ..old(self)@
            }),
    {
        self.create_userdata_inner(rt, data, true)
    }

    fn create_userdata_inner<T>(&mut self, rt: &mut Runtime<T>, data: T, serializable: bool) -> (r:
        Result<AnyUserData, Error>)
        requires
            old(self)@.wf_in(old(rt)@),
            old(rt)@.wf(),
        ensures
            final(rt)@.wf(),
            final(self)@.wf_in(final(rt)@),
            old(self)@.owns(old(rt)@) ==> final(self)@.owns(final(rt)@),
            r == Ok::<AnyUserData, Error>(AnyUserData { id: old(rt)@.shells.len() as usize }),
            final(rt)@ == old(rt)@.allocated(
                ShellKind::UserData { serializable },
                old(self)@.id,
                Slot::Held(data),
            ),
            final(self)@ == (ScopeModel {
                entries: old(self)@.entries.push((old(rt)@.shells.len() as usize, Teardown::UserData)),
                ..old(self)@
            }),
    {
        let id = rt.alloc_shell(ShellKind::UserData { serializable }, self.id, Slot::Held(data));
        self.destructors.push((id, Teardown::UserData));
        proof {
            lemma_scope_kept(old(self)@, old(rt)@, rt@);
            lemma_owns_extended(old(self)@, self@, old(rt)@, rt@, (id, Teardown::UserData));
        }
        Ok(AnyUserData { id })
    }

    proof fn lemma_entries_prefix(e0: Seq<(usize, Teardown)>, a: Seq<(usize, Teardown)>, b: Seq<(usize, Teardown)>)
        requires
            a.len() >= e0.len(),
            a.subrange(0, e0.len() as int) == e0,
            all_callbacks(a, e0.len() as int),
            b == a || (b.len() >= a.len() && b.subrange(0, a.len() as int) == a && all_callbacks(
                b,
                a.len() as int,
            )),
        ensures
            b.len() >= e0.len(),
            b.subrange(0, e0.len() as int) == e0,
            all_callbacks(b, e0.len() as int),
    {
        if b != a {
            assert(b.subrange(0, e0.len() as int) =~= a.subrange(0, e0.len() as int)) by {
                assert forall|k: int| 0 <= k < e0.len() implies b[k] == a[k] by {
                    assert(b.subrange(0, a.len() as int)[k] == b[k]);
                }
            }
            assert forall|k: int| e0.len() <= k < b.len() implies (#[trigger] b[k]).1
                == Teardown::Callback by {
                if k < a.len() {
                    assert(b.subrange(0, a.len() as int)[k] == b[k]);
                    assert(a[k].1 == Teardown::Callback);
                }
            }
        }
    }

    /// Wraps each declaration as a callback of this scope bound to object `o`,
    /// keeping names and order.
    fn wrap_entries<T, K>(
        &mut self,
        rt: &mut Runtime<T>,
        decl: Vec<(K, NonStaticMethod<T>)>,
        o: usize,
    ) -> (table: Vec<(K, Function)>)
        requires
            old(self)@.wf_in(old(rt)@),
            old(rt)@.wf(),
            o < old(rt)@.shells.len(),
            old(rt)@.shells[o as int].kind is Reserved,
        ensures
            final(rt)@.wf(),
            final(self)@.wf_in(final(rt)@),
            old(self)@.owns(old(rt)@) ==> final(self)@.owns(final(rt)@),
            final(self)@.id == old(self)@.id,
            appends_only(old(rt)@, final(rt)@),
            binds(final(rt)@, old(self)@.id, table@, decl@, o),
            final(self)@.entries.len() == old(self)@.entries.len() + decl@.len(),
            final(self)@.entries.subrange(0, old(self)@.entries.len() as int) == old(self)@.entries,
            all_callbacks(final(self)@.entries, old(self)@.entries.len() as int),
    {
        let ghost rt0 = rt@;
        let ghost orig = decl@;
        let ghost e0 = self@.entries;
        let mut decl = decl;
        let mut table: Vec<(K, Function)> = Vec::new();
        let n = decl.len();
        let mut i: usize = 0;
        proof {
            assert(decl@.subrange(0, n as int) =~= decl@);
            assert(self@.entries.subrange(0, e0.len() as int) =~= e0);
        }
        while i < n
            invariant
                n == orig.len(),
                i <= n,
                decl@ == orig.subrange(i as int, n as int),
                rt@.wf(),
                self@.wf_in(rt@),
                old(self)@.owns(old(rt)@) ==> self@.owns(rt@),
                self@.id == old(self)@.id,
                appends_only(rt0, rt@),
                rt0 == old(rt)@,
                o < rt0.shells.len(),
                rt0.shells[o as int].kind is Reserved,
                binds(rt@, self@.id, table@, orig.subrange(0, i as int), o),
                self@.entries.len() == e0.len() + i,
                self@.entries.subrange(0, e0.len() as int) == e0,
                e0 == old(self)@.entries,
                all_callbacks(self@.entries, e0.len() as int),
            decreases n - i,
        {
            proof {
                assert(decl@.len() > 0);
            }
            let (key, m) = decl.remove(0);
            proof {
                assert(orig[i as int] == (key, m));
                assert(decl@ =~= orig.subrange(i as int + 1, n as int));
            }
            let (closure, mutable, takes_self) = m.into_parts();
            let receiver = if takes_self {
                Some(o)
            } else {
                None
            };
            let ghost rt1 = rt@;
            let ghost e1 = self@.entries;
            let ghost t1 = table@;
            proof {
                assert(rt1.shells[o as int] == rt0.shells[o as int]);
            }
            let f = self.create_callback(rt, closure, mutable, receiver);
            table.push((key, f));
            proof {
                lemma_binds_appended(rt1, rt@, self@.id, t1, orig.subrange(0, i as int), o);
                assert(appends_only(rt1, rt@));
                assert forall|j: int| 0 <= j < rt0.shells.len() implies #[trigger] rt@.shells[j]
                    == rt0.shells[j] && rt@.payloads[j] == rt0.payloads[j] && rt@.pending[j]
                    == rt0.pending[j] by {
                    assert(rt1.shells[j] == rt0.shells[j]);
                }
                assert(wraps(rt@, self@.id, f, m, o));
                assert forall|k: int| 0 <= k < table@.len() implies (#[trigger] table@[k]).0
                    == orig.subrange(0, i as int + 1)[k].0 && wraps(
                    rt@,
                    self@.id,
                    table@[k].1,
                    orig.subrange(0, i as int + 1)[k].1,
                    o,
                ) by {
                    if k < i {
                        assert(table@[k] == t1[k]);
                    }
                }
                assert(self@.entries.subrange(0, e0.len() as int) =~= e0) by {
                    assert(self@.entries.subrange(0, e0.len() as int) =~= e1.subrange(
                        0,
                        e0.len() as int,
                    ));
                }
            }
            i = i + 1;
        }
        proof {
            assert(orig.subrange(0, n as int) =~= orig);
        }
        table
    }

    /// Wraps a value that has no global type identity, such as one that borrows
    /// data of this region.
    ///
    /// The object gets a throwaway descriptor of its own: its meta methods, bound
    /// as callbacks, then its meta fields; and lookup tables of field getters,
    /// field setters and methods, each only if some were declared. Every bound
    /// callback checks that its `self` is this very object. The descriptor is
    /// registered, then the value written, then the descriptor attached. Fails
    /// with `MetaMethodTypeError` if a meta field cannot stand where it was
    /// declared; the callbacks made until then stay registered with the scope.
    pub fn create_nonstatic_userdata<T>(
        &mut self,
        rt: &mut Runtime<T>,
        data: T,
        methods: NonStaticUserDataMethods<T>,
        fields: NonStaticUserDataFields<T>,
    ) -> (r: Result<AnyUserData, Error>)
        requires
            old(self)@.wf_in(old(rt)@),
            old(rt)@.wf(),
        ensures
            final(rt)@.wf(),
            final(self)@.wf_in(final(rt)@),
            old(self)@.owns(old(rt)@) ==> final(self)@.owns(final(rt)@),
            final(self)@.id == old(self)@.id,
            keeps_shells(old(rt)@, final(rt)@),
            final(rt)@.next_scope == old(rt)@.next_scope,
            final(self)@.entries.len() >= old(self)@.entries.len(),
            final(self)@.entries.subrange(0, old(self)@.entries.len() as int) == old(self)@.entries,
            keeps_old_shells(old(rt)@, final(rt)@),
            final(rt)@.registered.subrange(0, old(rt)@.registered.len() as int)
                == old(rt)@.registered,
            match first_meta_field_error(fields.meta_fields@) {
                Some(e) => r == Err::<AnyUserData, Error>(e),
                None => r is Ok,
            },
            r matches Ok(ud) ==> {
                let o = ud.id;
                let d = old(rt)@.metatables.len();
                let desc = final(rt)@.metatables[d as int];
                let owner = old(self)@.id;
                &&& o == old(rt)@.shells.len()
                &&& o < final(rt)@.shells.len()
                &&& final(rt)@.shells[o as int] == (Shell {
                    kind: ShellKind::NonStaticUserData { descriptor: d as usize },
                    owner,
                    runtime_ref: false,
                    readers: 0,
                })
                &&& final(rt)@.payloads[o as int] == Slot::Held(data)
                &&& final(rt)@.pending[o as int] is Empty
                &&& final(rt)@.metatables.len() == d + 1
                &&& final(rt)@.registered == old(rt)@.registered.push(true)
                &&& final(self)@.entries.last() == (o, Teardown::NonStaticUserData)
                &&& binds_meta(final(rt)@, owner, desc.meta@, methods.meta_methods@, fields.meta_fields@, o)
                &&& binds_table(final(rt)@, owner, desc.getters, fields.field_getters@, o)
                &&& binds_table(final(rt)@, owner, desc.setters, fields.field_setters@, o)
                &&& binds_table(final(rt)@, owner, desc.methods, methods.methods@, o)
            },
    {
        let ghost rt0 = rt@;
        let ghost e0 = self@.entries;
        let ghost mm = methods.meta_methods@;
        let ghost mf = fields.meta_fields@;
        let ghost fg = fields.field_getters@;
        let ghost fs = fields.field_setters@;
        let ghost md = methods.methods@;
        let NonStaticUserDataMethods { methods: method_decls, meta_methods } = methods;
        let NonStaticUserDataFields { field_getters, field_setters, meta_fields } = fields;
        // Reserve the object's storage first, so that every callback can be bound to it.
        let o = rt.alloc_shell(ShellKind::Reserved, self.id, Slot::Empty);
        proof {
            lemma_scope_kept(old(self)@, rt0, rt@);
            assert(self@.entries.subrange(0, e0.len() as int) =~= e0);
            assert(all_callbacks(self@.entries, e0.len() as int));
        }
        let ghost rt_r = rt@;
        let ghost e_r = self@.entries;
        let wrapped_meta = self.wrap_entries(rt, meta_methods, o);
        let ghost rt_m = rt@;
        let mut meta: Vec<(MetaMethod, Value)> = Vec::new();
        let nm = wrapped_meta.len();
        let mut i: usize = 0;
        while i < nm
            invariant
                nm == wrapped_meta@.len(),
                i <= nm,
                meta@.len() == i,
                forall|k: int| 0 <= k < i ==> (#[trigger] meta@[k]).0 == wrapped_meta@[k].0 && meta@[k].1
                    == Value::Function(wrapped_meta@[k].1),
            decreases nm - i,
        {
            let (key, f) = wrapped_meta[i];
            meta.push((key, Value::Function(f)));
            i = i + 1;
        }
        match check_meta_fields(&meta_fields) {
            Err(e) => {
                proof {
                    Self::lemma_entries_prefix(e0, e_r, self@.entries);
                    assert forall|j: int| 0 <= j < rt0.shells.len() implies {
                        &&& #[trigger] rt@.shells[j] == rt0.shells[j]
                        &&& rt@.payloads[j] == rt0.payloads[j]
                        &&& rt@.pending[j] == rt0.pending[j]
                    } by {
                        assert(rt_r.shells[j] == rt0.shells[j]);
                        assert(rt_r.payloads[j] == rt0.payloads[j]);
                        assert(rt_r.pending[j] == rt0.pending[j]);
                        assert(rt_m.shells[j] == rt_r.shells[j]);
                    }
                    assert(keeps_old_shells(rt0, rt@));
                }
                return Err(e);
            },
            Ok(()) => {},
        }
        let nf = meta_fields.len();
        let mut j: usize = 0;
        while j < nf
            invariant
                nf == meta_fields@.len(),
                j <= nf,
                meta@.len() == nm + j,
                forall|k: int| 0 <= k < nm ==> (#[trigger] meta@[k]).0 == wrapped_meta@[k].0 && meta@[k].1
                    == Value::Function(wrapped_meta@[k].1),
                meta@.subrange(nm as int, meta@.len() as int) == meta_fields@.subrange(0, j as int),
            decreases nf - j,
        {
            let ghost before = meta@;
            meta.push(meta_fields[j]);
            proof {
                assert(meta@.subrange(nm as int, meta@.len() as int) =~= meta_fields@.subrange(0, j as int + 1)) by {
                    assert(before.subrange(nm as int, before.len() as int) == meta_fields@.subrange(0, j as int));
                }
            }
            j = j + 1;
        }
        proof {
            assert(meta_fields@.subrange(0, nf as int) =~= meta_fields@);
        }
        let ghost e_m = self@.entries;
        let getters = if field_getters.len() > 0 {
            Some(self.wrap_entries(rt, field_getters, o))
        } else {
            None
        };
        let ghost rt_g = rt@;
        let ghost e_g = self@.entries;
        let setters = if field_setters.len() > 0 {
            Some(self.wrap_entries(rt, field_setters, o))
        } else {
            None
        };
        let ghost rt_s = rt@;
        let ghost e_s = self@.entries;
        let method_table = if method_decls.len() > 0 {
            Some(self.wrap_entries(rt, method_decls, o))
        } else {
            None
        };
        let ghost rt_t = rt@;
        let ghost e_t = self@.entries;
        proof {
            assert(rt_t.shells[o as int].kind is Reserved);
            Self::lemma_entries_prefix(e0, e_r, e_m);
            Self::lemma_entries_prefix(e0, e_m, e_g);
            Self::lemma_entries_prefix(e0, e_g, e_s);
            Self::lemma_entries_prefix(e0, e_s, e_t);
        }
        let descriptor = Descriptor { meta, getters, setters, methods: method_table };
        let ghost descriptor_ghost = descriptor;
        let ghost data_ghost = data;
        let d = rt.attach_object(o, descriptor, data);
        self.destructors.push((o, Teardown::NonStaticUserData));
        proof {
            let fin = rt@;
            let owner = self@.id;
            assert(appends_only(rt_m, rt_g));
            assert(appends_only(rt_g, rt_s));
            assert(appends_only(rt_s, rt_t));
            lemma_appends_trans(rt_r, rt_m, rt_g);
            lemma_appends_trans(rt_r, rt_g, rt_s);
            lemma_appends_trans(rt_r, rt_s, rt_t);
            lemma_appends_trans(rt_m, rt_g, rt_s);
            lemma_appends_trans(rt_m, rt_s, rt_t);
            lemma_appends_trans(rt_g, rt_s, rt_t);
            assert(rt_t.shells[o as int] == rt_r.shells[o as int]);
            // The frame below the new object.
            assert forall|j: int| 0 <= j < rt0.shells.len() implies {
                &&& #[trigger] fin.shells[j] == rt0.shells[j]
                &&& fin.payloads[j] == rt0.payloads[j]
                &&& fin.pending[j] == rt0.pending[j]
            } by {
                assert(rt_r.shells[j] == rt0.shells[j]);
                assert(rt_r.payloads[j] == rt0.payloads[j]);
                assert(rt_r.pending[j] == rt0.pending[j]);
                assert(rt_t.shells[j] == rt_r.shells[j]);
                assert(fin.payloads[j] == rt_t.payloads[j]);
            }
            assert(keeps_old_shells(rt0, fin));
            assert(keeps_shells(rt_t, fin));
            lemma_scope_kept(scope_model(e_t, owner), rt_t, fin);
            lemma_owns_extended(scope_model(e_t, owner), self@, rt_t, fin, (o, Teardown::NonStaticUserData));
            assert(self@.entries.subrange(0, e0.len() as int) =~= e_t.subrange(0, e0.len() as int));
            assert(fin.registered =~= rt0.registered.push(true));
            assert(fin.registered.subrange(0, rt0.registered.len() as int) =~= rt0.registered);
            // The descriptor binds what was declared.
            lemma_binds_appended(rt_m, rt_t, owner, wrapped_meta@, mm, o);
            lemma_binds_attached(rt_t, o, descriptor_ghost, data_ghost, owner, wrapped_meta@, mm);
            let desc = fin.metatables[d as int];
            assert(desc == descriptor_ghost);
            assert forall|k: int| 0 <= k < mm.len() implies (#[trigger] desc.meta@[k]).0 == mm[k].0
                && desc.meta@[k].1 is Function && wraps(fin, owner, desc.meta@[k].1->Function_0, mm[k].1, o) by {
                assert(desc.meta@[k].1 == Value::Function(wrapped_meta@[k].1));
            }
            match desc.getters {
                Some(t) => {
                    lemma_binds_appended(rt_g, rt_t, owner, t@, fg, o);
                    lemma_binds_attached(rt_t, o, descriptor_ghost, data_ghost, owner, t@, fg);
                },
                None => {},
            }
            match desc.setters {
                Some(t) => {
                    lemma_binds_appended(rt_s, rt_t, owner, t@, fs, o);
                    lemma_binds_attached(rt_t, o, descriptor_ghost, data_ghost, owner, t@, fs);
                },
                None => {},
            }
            match desc.methods {
                Some(t) => {
                    lemma_binds_attached(rt_t, o, descriptor_ghost, data_ghost, owner, t@, md);
                },
                None => {},
            }
        }
        Ok(AnyUserData { id: o })
    }

    /// First pass of teardown: drains the registry in order of creation and
    /// strips every registered shell, without dropping anything. The host values
    /// come back in that order, for the second pass to drop.
    pub fn invalidate<T>(&mut self, rt: &mut Runtime<T>) -> (to_drop: Vec<T>)
        requires
            old(self)@.wf_in(old(rt)@),
            old(rt)@.wf(),
        ensures
            final(rt)@.wf(),
            final(self)@.id == old(self)@.id,
            final(self)@.entries.len() == 0,
            final(self)@.wf_in(final(rt)@),
            old(self)@.owns(old(rt)@) ==> final(self)@.owns(final(rt)@),
            final(rt)@ == detached_all(old(rt)@, old(self)@.entries),
            old(rt)@.same_shape(final(rt)@),
            old(self)@.all_inert(final(rt)@),
            old(self)@.all_deregistered(old(rt)@, final(rt)@),
            to_drop@ == released_all(old(rt)@, old(self)@.entries),
    {
        proof {
            let entries = old(self)@.entries;
            lemma_detached_all(old(rt)@, entries);
            assert forall|k: int| 0 <= k < entries.len() implies detached_all(old(rt)@, entries).inert(
                (#[trigger] entries[k]).0 as int,
            ) by {}
            assert forall|k: int| 0 <= k < entries.len() implies {
                let id = (#[trigger] entries[k]).0 as int;
                old(rt)@.shells[id].kind is NonStaticUserData ==> !detached_all(old(rt)@, entries).registered[old(rt)@.shells[id].kind->descriptor as int]
            } by {
                let id = entries[k].0 as int;
                if old(rt)@.shells[id].kind is NonStaticUserData {
                    assert(old(rt)@.shells[entries[k].0 as int].kind is NonStaticUserData);
                }
            }
        }
        let mut entries: Vec<(usize, Teardown)> = Vec::new();
        core::mem::swap(&mut entries, &mut self.destructors);
        let mut to_drop: Vec<T> = Vec::new();
        let n = entries.len();
        let mut i: usize = 0;
        while i < n
            invariant
                n == entries.len(),
                entries@ == old(self)@.entries,
                old(self)@.wf_in(old(rt)@),
                i <= n,
                rt@.wf(),
                rt@.shells.len() == old(rt)@.shells.len(),
                rt@.next_scope == old(rt)@.next_scope,
                rt@ == detached_all(old(rt)@, entries@.take(i as int)),
                to_drop@ == released_all(old(rt)@, entries@.take(i as int)),
            decreases n - i,
        {
            proof {
                assert(old(self)@.entries[i as int].0 < old(rt)@.shells.len());
                assert(entries@.take(i as int + 1).drop_last() =~= entries@.take(i as int));
            }
            let (id, _) = entries[i];
            rt.detach(id, &mut to_drop);
            i = i + 1;
        }
        proof {
            assert(entries@.take(n as int) =~= entries@);
        }
        to_drop
    }

    /// Ends the scope: strips every registered shell first, and only then drops
    /// the host values, so that a panicking drop finds every shell already inert.
    pub fn close<T>(self, rt: &mut Runtime<T>)
        requires
            self@.wf_in(old(rt)@),
            old(rt)@.wf(),
        ensures
            final(rt)@.wf(),
            final(rt)@ == detached_all(old(rt)@, self@.entries),
            old(rt)@.same_shape(final(rt)@),
            self@.all_inert(final(rt)@),
            self@.all_deregistered(old(rt)@, final(rt)@),
    {
        let mut scope = self;
        let to_drop = scope.invalidate(rt);
        // Second pass: `to_drop` goes out of scope here, after every shell is inert.
    }
}

} // verus!
