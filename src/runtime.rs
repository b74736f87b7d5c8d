use vstd::prelude::*;

use crate::error::Error;
use crate::value::{AnyUserData, Function, MetaMethod, Value};

verus! {

/// A hidden payload slot of a runtime-side shell.
pub enum Slot<T> {
    /// Inert placeholder: nothing is attached (never written, or detached).
    Empty,
    /// The host value is attached.
    Held(T),
    /// The host value is out with a running invocation.
    Lent,
    /// An asynchronous computation that resolved with an error before it ran.
    Failed(Error),
}

/// What a shell is, as far as its hidden payloads go.
#[derive(Clone, Copy, Debug, PartialEq, Eq, Structural)]
pub enum ShellKind {
    /// A callable; `receiver` is the object shell that a method is bound to.
    Function { mutable: bool, receiver: Option<usize> },
    /// A callable whose calls start a computation that is then polled.
    AsyncFunction,
    /// An object whose type is registered globally.
    UserData { serializable: bool },
    /// Raw storage of an object that has no descriptor attached yet.
    Reserved,
    /// An object with its own throwaway descriptor.
    NonStaticUserData { descriptor: usize },
}

/// The runtime-visible part of a shell.
#[derive(Clone, Copy, Debug, PartialEq, Eq, Structural)]
pub struct Shell {
    pub kind: ShellKind,
    /// The scope that created the shell.
    pub owner: u64,
    /// Whether the shell's hidden back-reference to the runtime is set.
    pub runtime_ref: bool,
    /// Shared borrows of the hidden payload that are outstanding.
    pub readers: u64,
}

/// A throwaway dispatch table of one object.
pub struct Descriptor {
    /// Meta methods, then meta fields, in the order they were declared.
    pub meta: Vec<(MetaMethod, Value)>,
    pub getters: Option<Vec<(Vec<u8>, Function)>>,
    pub setters: Option<Vec<(Vec<u8>, Function)>>,
    pub methods: Option<Vec<(Vec<u8>, Function)>>,
}

/// How a successful invocation hands the host what the callback runs on.
pub enum Invocation<T> {
    /// Nothing moved: read the state with `callback_state`, and the object, if
    /// the callback is a method, with `receiver_value`.
    Shared,
    /// The state of a mutable callback, lent until `finish`.
    Exclusive(T),
    /// The state of a mutable method and the object it is bound to, lent until `finish`.
    ExclusiveMethod(T, T),
}

/// The callback that the first entry named `name` in `table` binds.
pub open spec fn lookup(table: Seq<(Vec<u8>, Function)>, name: Seq<u8>) -> Option<Function>
    decreases table.len(),
{
    if table.len() == 0 {
        None
    } else if table[0].0@ == name {
        Some(table[0].1)
    } else {
        lookup(table.drop_first(), name)
    }
}

fn bytes_eq(a: &Vec<u8>, b: &[u8]) -> (r: bool)
    ensures
        r == (a@ == b@),
{
    if a.len() != b.len() {
        return false;
    }
    let n = a.len();
    let mut i: usize = 0;
    while i < n
        invariant
            n == a@.len(),
            n == b@.len(),
            i <= n,
            forall|k: int| 0 <= k < i ==> a@[k] == b@[k],
        decreases n - i,
    {
        if a[i] != b[i] {
            return false;
        }
        i = i + 1;
    }
    proof {
        assert(a@ =~= b@);
    }
    true
}

fn find(table: &Vec<(Vec<u8>, Function)>, name: &[u8]) -> (r: Option<Function>)
    ensures
        r == lookup(table@, name@),
{
    let n = table.len();
    let mut i: usize = 0;
    proof {
        assert(table@.subrange(0, n as int) =~= table@);
    }
    while i < n
        invariant
            n == table@.len(),
            i <= n,
            lookup(table@, name@) == lookup(table@.subrange(i as int, n as int), name@),
        decreases n - i,
    {
        proof {
            assert(table@.subrange(i as int, n as int).drop_first() =~= table@.subrange(
                i as int + 1,
                n as int,
            ));
        }
        if bytes_eq(&table[i].0, name) {
            return Some(table[i].1);
        }
        i = i + 1;
    }
    None
}

/// The embedded runtime, reduced to what the bridge needs: shells with hidden
/// payload slots, and the process-wide table of registered descriptors.
pub struct Runtime<T> {
    shells: Vec<Shell>,
    payloads: Vec<Slot<T>>,
    pending: Vec<Slot<T>>,
    metatables: Vec<Descriptor>,
    registered: Vec<bool>,
    next_scope: u64,
}

/// The mathematical state of a [`Runtime`]: entry `i` of each shell sequence
/// belongs to the shell with handle id `i`.
pub struct RuntimeModel<T> {
    pub shells: Seq<Shell>,
    /// Primary hidden payload: a callback's state or an object's value.
    pub payloads: Seq<Slot<T>>,
    /// Computation of an asynchronous callback.
    pub pending: Seq<Slot<T>>,
    pub metatables: Seq<Descriptor>,
    /// Whether each descriptor is registered in the process-wide table.
    pub registered: Seq<bool>,
    pub next_scope: u64,
}

impl<T> View for Runtime<T> {
    type V = RuntimeModel<T>;

    closed spec fn view(&self) -> RuntimeModel<T> {
        RuntimeModel {
            shells: self.shells@,
            payloads: self.payloads@,
            pending: self.pending@,
            metatables: self.metatables@,
            registered: self.registered@,
            next_scope: self.next_scope,
        }
    }
}

pub open spec fn slot_live<T>(s: Slot<T>) -> bool {
    s is Held || s is Lent
}

impl<T> RuntimeModel<T> {
    pub open spec fn shell_wf(self, i: int) -> bool {
        let s = self.shells[i];
        &&& s.owner < self.next_scope
        &&& (s.kind matches ShellKind::Function { receiver: Some(o), .. } ==> o < self.shells.len()
            && self.shells[o as int].kind !is Function)
        &&& (s.kind is Function ==> s.readers == 0)
        &&& (s.kind matches ShellKind::NonStaticUserData { descriptor } ==> descriptor
            < self.metatables.len())
        &&& (s.readers > 0 ==> self.payloads[i] is Held)
    }

    pub open spec fn wf(self) -> bool {
        &&& self.payloads.len() == self.shells.len()
        &&& self.pending.len() == self.shells.len()
        &&& self.registered.len() == self.metatables.len()
        &&& self.shells.len() <= usize::MAX
        &&& self.metatables.len() <= usize::MAX
        &&& forall|i: int| 0 <= i < self.shells.len() ==> #[trigger] self.shell_wf(i)
        &&& self.descriptors_unique()
    }

    /// No two objects share a throwaway descriptor.
    pub open spec fn descriptors_unique(self) -> bool {
        forall|i: int, j: int|
            0 <= i < self.shells.len() && 0 <= j < self.shells.len() && (
            #[trigger] self.shells[i]).kind is NonStaticUserData && (
            #[trigger] self.shells[j]).kind is NonStaticUserData && self.shells[i].kind
                == self.shells[j].kind ==> i == j
    }

    pub open spec fn is_function(self, f: Function) -> bool {
        f.id < self.shells.len() && self.shells[f.id as int].kind is Function
    }

    pub open spec fn is_async_function(self, f: Function) -> bool {
        f.id < self.shells.len() && self.shells[f.id as int].kind is AsyncFunction
    }

    pub open spec fn is_userdata(self, ud: AnyUserData) -> bool {
        ud.id < self.shells.len()
    }

    pub open spec fn is_mutable(self, f: Function) -> bool {
        self.shells[f.id as int].kind->Function_mutable
    }

    pub open spec fn receiver(self, f: Function) -> Option<usize> {
        self.shells[f.id as int].kind->Function_receiver
    }

    /// The error with which a call of `f`, given `receiver` as its first argument,
    /// fails, or `None` when the call proceeds.
    pub open spec fn call_error(self, f: Function, receiver: Option<Value>) -> Option<Error> {
        let slot = self.payloads[f.id as int];
        let mutable = self.is_mutable(f);
        if !slot_live(slot) {
            Some(Error::CallbackDestructed)
        } else {
            match self.receiver(f) {
                None => if slot is Lent {
                    Some(Error::RecursiveMutCallback)
                } else {
                    None
                },
                Some(o) => {
                    let object = self.payloads[o as int];
                    if receiver != Some(Value::UserData(AnyUserData { id: o })) {
                        Some(Error::UserDataTypeMismatch)
                    } else if slot is Lent {
                        Some(Error::RecursiveMutCallback)
                    } else if !slot_live(object) {
                        Some(Error::UserDataDestructed)
                    } else if mutable && (object is Lent || self.shells[o as int].readers > 0) {
                        Some(Error::UserDataBorrowMutError)
                    } else if !mutable && (object is Lent || self.shells[o as int].readers
                        == u64::MAX) {
                        Some(Error::UserDataBorrowError)
                    } else {
                        None
                    }
                },
            }
        }
    }

    pub open spec fn with_readers(self, o: int, n: u64) -> RuntimeModel<T> {
        RuntimeModel { shells: self.shells.update(o, Shell { readers: n, ..self.shells[o] }), ..self }
    }

    pub open spec fn with_payload(self, i: int, s: Slot<T>) -> RuntimeModel<T> {
        RuntimeModel { payloads: self.payloads.update(i, s), ..self }
    }

    pub open spec fn with_pending(self, i: int, s: Slot<T>) -> RuntimeModel<T> {
        RuntimeModel { pending: self.pending.update(i, s), ..self }
    }

    /// The state once a call of `f` has been let in.
    pub open spec fn entered(self, f: Function) -> RuntimeModel<T> {
        let i = f.id as int;
        if self.is_mutable(f) {
            match self.receiver(f) {
                None => self.with_payload(i, Slot::Lent),
                Some(o) => self.with_payload(i, Slot::Lent).with_payload(o as int, Slot::Lent),
            }
        } else {
            match self.receiver(f) {
                None => self,
                Some(o) => self.with_readers(o as int, (self.shells[o as int].readers + 1) as u64),
            }
        }
    }

    /// What a call of `f` that was let in hands out.
    pub open spec fn handed_out(self, f: Function, inv: Invocation<T>) -> bool {
        let i = f.id as int;
        if self.is_mutable(f) {
            match self.receiver(f) {
                None => inv == Invocation::Exclusive(self.payloads[i]->Held_0),
                Some(o) => inv == Invocation::ExclusiveMethod(
                    self.payloads[i]->Held_0,
                    self.payloads[o as int]->Held_0,
                ),
            }
        } else {
            inv is Shared
        }
    }

    /// The state once the call of `f` that handed out `inv` has returned.
    pub open spec fn finished(self, f: Function, inv: Invocation<T>) -> RuntimeModel<T> {
        let i = f.id as int;
        match inv {
            Invocation::Shared => match self.receiver(f) {
                Some(o) => if self.shells[o as int].readers > 0 {
                    self.with_readers(o as int, (self.shells[o as int].readers - 1) as u64)
                } else {
                    self
                },
                None => self,
            },
            Invocation::Exclusive(s) => self.restored(i, s),
            Invocation::ExclusiveMethod(s, v) => match self.receiver(f) {
                Some(o) => self.restored(i, s).restored(o as int, v),
                None => self.restored(i, s),
            },
        }
    }

    /// Gives a lent payload back; a payload detached meanwhile stays detached.
    pub open spec fn restored(self, i: int, v: T) -> RuntimeModel<T> {
        if self.payloads[i] is Lent {
            self.with_payload(i, Slot::Held(v))
        } else {
            self
        }
    }

    /// The host values that detaching shell `i` hands back, in this order: the
    /// primary payload, then the computation of an asynchronous callback.
    pub open spec fn released(self, i: int) -> Seq<T> {
        let first = match self.payloads[i] {
            Slot::Held(v) => seq![v],
            _ => Seq::empty(),
        };
        let second = match self.pending[i] {
            Slot::Held(v) => seq![v],
            _ => Seq::empty(),
        };
        first + second
    }

    /// The state once shell `i` is stripped of its hidden payloads.
    pub open spec fn detached(self, i: int) -> RuntimeModel<T> {
        let s = self.shells[i];
        let stripped = RuntimeModel {
            shells: self.shells.update(i, Shell { runtime_ref: false, readers: 0, ..s }),
            payloads: self.payloads.update(i, Slot::Empty),
            pending: self.pending.update(i, Slot::Empty),
            ..self
        };
        match s.kind {
            ShellKind::NonStaticUserData { descriptor } => RuntimeModel {
                registered: self.registered.update(descriptor as int, false),
                ..stripped
            },
            _ => stripped,
        }
    }

    /// The error with which reading back the value of `ud` fails, if any.
    pub open spec fn borrow_error(self, ud: AnyUserData) -> Option<Error>
        recommends
            self.is_userdata(ud),
    {
        let slot = self.payloads[ud.id as int];
        if !(self.shells[ud.id as int].kind is UserData) {
            Some(Error::UserDataTypeMismatch)
        } else if slot is Lent {
            Some(Error::UserDataBorrowError)
        } else if slot !is Held {
            Some(Error::UserDataDestructed)
        } else {
            None
        }
    }

    /// Whether a new shell of `kind` would refer only to what exists.
    pub open spec fn kind_fits(self, kind: ShellKind) -> bool {
        &&& (kind matches ShellKind::Function { receiver: Some(o), .. } ==> o < self.shells.len()
            && self.shells[o as int].kind !is Function)
        &&& (kind matches ShellKind::NonStaticUserData { descriptor } ==> descriptor
            < self.metatables.len())
    }

    /// The state once a shell of `kind`, made by scope `owner`, is appended.
    pub open spec fn allocated(self, kind: ShellKind, owner: u64, payload: Slot<T>) -> RuntimeModel<
        T,
    > {
        RuntimeModel {
            shells: self.shells.push(
                Shell {
                    kind,
                    owner,
                    runtime_ref: kind is Function || kind is AsyncFunction,
                    readers: 0,
                },
            ),
            payloads: self.payloads.push(payload),
            pending: self.pending.push(Slot::Empty),
            ..self
        }
    }

    /// The state once descriptor `d` is registered and attached, with value `v`,
    /// to the reserved shell `i`.
    pub open spec fn attached(self, i: int, d: Descriptor, v: T) -> RuntimeModel<T> {
        RuntimeModel {
            shells: self.shells.update(
                i,
                Shell {
                    kind: ShellKind::NonStaticUserData { descriptor: self.metatables.len() as usize },
                    ..self.shells[i]
                },
            ),
            payloads: self.payloads.update(i, Slot::Held(v)),
            metatables: self.metatables.push(d),
            registered: self.registered.push(true),
            ..self
        }
    }

    /// The method named `name` in the descriptor attached to `ud`, if any.
    pub open spec fn method_of(self, ud: AnyUserData, name: Seq<u8>) -> Option<Function> {
        match self.shells[ud.id as int].kind {
            ShellKind::NonStaticUserData { descriptor } => match self.metatables[descriptor as int].methods {
                Some(t) => lookup(t@, name),
                None => None,
            },
            _ => None,
        }
    }

    /// `next` has the same shells as `self`, of the same kinds and owners, the
    /// same descriptors, and the same scope counter; only payloads, borrows,
    /// back-references and registrations may differ.
    pub open spec fn same_shape(self, next: RuntimeModel<T>) -> bool {
        &&& next.shells.len() == self.shells.len()
        &&& next.next_scope == self.next_scope
        &&& next.metatables == self.metatables
        &&& next.registered.len() == self.registered.len()
        &&& forall|j: int|
            0 <= j < self.shells.len() ==> (#[trigger] next.shells[j]).kind == self.shells[j].kind
                && next.shells[j].owner == self.shells[j].owner
    }

    /// Whether shell `i` holds no host data and no back-reference.
    pub open spec fn inert(self, i: int) -> bool {
        &&& self.payloads[i] is Empty
        &&& self.pending[i] is Empty
        &&& !self.shells[i].runtime_ref
    }
}

impl<T> Runtime<T> {
    /// A runtime with no shells and no descriptors.
    pub fn new() -> (r: Runtime<T>)
        ensures
            r@.wf(),
            r@.shells.len() == 0,
            r@.metatables.len() == 0,
            r@.next_scope == 0,
    {
        Runtime {
            shells: Vec::new(),
            payloads: Vec::new(),
            pending: Vec::new(),
            metatables: Vec::new(),
            registered: Vec::new(),
            next_scope: 0,
        }
    }

    /// Lets a script-side call of `f` in, with `receiver` as its first argument.
    ///
    /// A call of a torn-down callback fails with `CallbackDestructed`. A method
    /// checks that `receiver` is the very object it was built for, then borrows
    /// that object: shared for a method, exclusively for a mutable one. A mutable
    /// callback is lent out whole, so that a reentrant call fails instead of
    /// running twice at once.
    pub fn invoke(&mut self, f: Function, receiver: Option<Value>) -> (r: Result<Invocation<T>, Error>)
        requires
            old(self)@.wf(),
            old(self)@.is_function(f),
        ensures
            final(self)@.wf(),
            old(self)@.same_shape(final(self)@),
            match old(self)@.call_error(f, receiver) {
                Some(e) => r == Err::<Invocation<T>, Error>(e) && final(self)@ == old(self)@,
                None => r is Ok && old(self)@.handed_out(f, r->Ok_0) && final(self)@ == old(
                    self,
                )@.entered(f),
            },
    {
        let i = f.id;
        proof {
            assert(old(self)@.shell_wf(i as int));
        }
        let (mutable, bound) = match self.shells[i].kind {
            ShellKind::Function { mutable, receiver } => (mutable, receiver),
            _ => (false, None),
        };
        let lent = match &self.payloads[i] {
            Slot::Held(_) => false,
            Slot::Lent => true,
            _ => {
                return Err(Error::CallbackDestructed);
            },
        };
        match bound {
            None => {
                if lent {
                    return Err(Error::RecursiveMutCallback);
                }
                if mutable {
                    let state = self.take_payload(i);
                    Ok(Invocation::Exclusive(state))
                } else {
                    Ok(Invocation::Shared)
                }
            },
            Some(o) => {
                if receiver != Some(Value::UserData(AnyUserData { id: o })) {
                    return Err(Error::UserDataTypeMismatch);
                }
                if lent {
                    return Err(Error::RecursiveMutCallback);
                }
                let object_lent = match &self.payloads[o] {
                    Slot::Held(_) => false,
                    Slot::Lent => true,
                    _ => {
                        return Err(Error::UserDataDestructed);
                    },
                };
                let readers = self.shells[o].readers;
                if mutable {
                    if object_lent || readers > 0 {
                        return Err(Error::UserDataBorrowMutError);
                    }
                    let state = self.take_payload(i);
                    let value = self.take_payload(o);
                    Ok(Invocation::ExclusiveMethod(state, value))
                } else {
                    if object_lent || readers == u64::MAX {
                        return Err(Error::UserDataBorrowError);
                    }
                    let s = self.shells[o];
                    self.shells.set(o, Shell { readers: readers + 1, ..s });
                    proof {
                        let m = old(self)@.entered(f);
                        assert(self@.shells =~= m.shells);
                        assert(self@ == m);
                        assert forall|j: int| 0 <= j < self@.shells.len() implies #[trigger] self@.shell_wf(j) by {
                            assert(old(self)@.shell_wf(j));
                        }
                    }
                    Ok(Invocation::Shared)
                }
            },
        }
    }

    /// Moves a held payload out, leaving the slot lent.
    fn take_payload(&mut self, i: usize) -> (v: T)
        requires
            old(self)@.wf(),
            i < old(self)@.shells.len(),
            old(self)@.payloads[i as int] is Held,
            old(self)@.shells[i as int].readers == 0,
        ensures
            final(self)@.wf(),
            v == old(self)@.payloads[i as int]->Held_0,
            final(self)@ == old(self)@.with_payload(i as int, Slot::Lent),
    {
        let mut slot = Slot::Lent;
        self.payloads.set_and_swap(i, &mut slot);
        let ghost m = old(self)@.with_payload(i as int, Slot::Lent);
        assert(self@ =~= m) by {
            assert(self@.payloads =~= m.payloads);
        }
        assert forall|j: int| 0 <= j < self@.shells.len() implies #[trigger] self@.shell_wf(j) by {
            assert(old(self)@.shell_wf(j));
        }
        match slot {
            Slot::Held(v) => v,
            _ => vstd::pervasive::unreached(),
        }
    }

    /// Ends the call of `f` that `invoke` let in with `inv`: lent state goes back
    /// to its slots (unless the scope detached them meanwhile, in which case it is
    /// dropped here), and a shared borrow of the receiver ends.
    pub fn finish(&mut self, f: Function, inv: Invocation<T>)
        requires
            old(self)@.wf(),
            old(self)@.is_function(f),
        ensures
            final(self)@.wf(),
            old(self)@.same_shape(final(self)@),
            final(self)@ == old(self)@.finished(f, inv),
    {
        let i = f.id;
        proof {
            assert(old(self)@.shell_wf(i as int));
        }
        let bound = match self.shells[i].kind {
            ShellKind::Function { receiver, .. } => receiver,
            _ => None,
        };
        match inv {
            Invocation::Shared => match bound {
                Some(o) => {
                    let s = self.shells[o];
                    if s.readers > 0 {
                        self.shells.set(o, Shell { readers: s.readers - 1, ..s });
                        proof {
                            let m = old(self)@.finished(f, inv);
                            assert(self@.shells =~= m.shells);
                            assert(self@ == m);
                            assert forall|j: int| 0 <= j < self@.shells.len() implies #[trigger] self@.shell_wf(j) by {
                                assert(old(self)@.shell_wf(j));
                            }
                        }
                    }
                },
                None => {},
            },
            Invocation::Exclusive(state) => {
                self.restore(i, state);
            },
            Invocation::ExclusiveMethod(state, value) => {
                self.restore(i, state);
                match bound {
                    Some(o) => {
                        self.restore(o, value);
                    },
                    None => {},
                }
            },
        }
    }

    fn restore(&mut self, i: usize, v: T)
        requires
            old(self)@.wf(),
            i < old(self)@.shells.len(),
        ensures
            final(self)@.wf(),
            final(self)@ == old(self)@.restored(i as int, v),
    {
        let lent = match &self.payloads[i] {
            Slot::Lent => true,
            _ => false,
        };
        if lent {
            self.payloads.set(i, Slot::Held(v));
            proof {
                let m = old(self)@.restored(i as int, v);
                assert(self@.payloads =~= m.payloads);
                assert(self@ == m);
                assert forall|j: int| 0 <= j < self@.shells.len() implies #[trigger] self@.shell_wf(j) by {
                    assert(old(self)@.shell_wf(j));
                }
            }
        }
    }

    /// The state of callback `f`, while it is attached and not lent.
    pub fn callback_state(&self, f: Function) -> (r: Option<&T>)
        requires
            self@.wf(),
            f.id < self@.shells.len(),
        ensures
            match r {
                Some(v) => self@.payloads[f.id as int] == Slot::Held(*v),
                None => self@.payloads[f.id as int] !is Held,
            },
    {
        match &self.payloads[f.id] {
            Slot::Held(v) => Some(v),
            _ => None,
        }
    }

    /// The object that method `f` is bound to, while it is attached and not lent:
    /// what a shared method call reads.
    pub fn receiver_value(&self, f: Function) -> (r: Option<&T>)
        requires
            self@.wf(),
            self@.is_function(f),
        ensures
            match r {
                Some(v) => self@.receiver(f) matches Some(o) && self@.payloads[o as int] == Slot::Held(
                    *v,
                ),
                None => !(self@.receiver(f) matches Some(o) && self@.payloads[o as int] is Held),
            },
    {
        proof {
            assert(self@.shell_wf(f.id as int));
        }
        match self.shells[f.id].kind {
            ShellKind::Function { receiver: Some(o), .. } => match &self.payloads[o] {
                Slot::Held(v) => Some(v),
                _ => None,
            },
            _ => None,
        }
    }

    /// Reads back the value of a globally typed object. An object without a
    /// global type identity cannot be read back as any type.
    pub fn borrow_userdata(&self, ud: AnyUserData) -> (r: Result<&T, Error>)
        requires
            self@.wf(),
            self@.is_userdata(ud),
        ensures
            match self@.borrow_error(ud) {
                Some(e) => r == Err::<&T, Error>(e),
                None => r matches Ok(v) && self@.payloads[ud.id as int] == Slot::Held(*v),
            },
    {
        match self.shells[ud.id].kind {
            ShellKind::UserData { .. } => {},
            _ => {
                return Err(Error::UserDataTypeMismatch);
            },
        }
        match &self.payloads[ud.id] {
            Slot::Held(v) => Ok(v),
            Slot::Lent => Err(Error::UserDataBorrowError),
            _ => Err(Error::UserDataDestructed),
        }
    }

    /// Starts a call of asynchronous callback `f`. `started` is the computation
    /// the host made of the call, or the error with which converting its
    /// arguments failed: that error is kept as an already failed computation,
    /// and comes out of the first poll.
    pub fn start_async(&mut self, f: Function, started: Result<T, Error>) -> (r: Result<(), Error>)
        requires
            old(self)@.wf(),
            old(self)@.is_async_function(f),
        ensures
            final(self)@.wf(),
            old(self)@.same_shape(final(self)@),
            old(self)@.payloads[f.id as int] !is Held ==> r == Err::<(), Error>(
                Error::CallbackDestructed,
            ) && final(self)@ == old(self)@,
            old(self)@.payloads[f.id as int] is Held && old(self)@.pending[f.id as int] is Lent
                ==> r == Err::<(), Error>(Error::RecursiveMutCallback) && final(self)@ == old(
                self,
            )@,
            old(self)@.payloads[f.id as int] is Held && old(self)@.pending[f.id as int] !is Lent
                ==> r is Ok && final(self)@ == old(self)@.with_pending(
                f.id as int,
                match started {
                    Ok(c) => Slot::Held(c),
                    Err(e) => Slot::Failed(e),
                },
            ),
    {
        let i = f.id;
        match &self.payloads[i] {
            Slot::Held(_) => {},
            _ => {
                return Err(Error::CallbackDestructed);
            },
        }
        match &self.pending[i] {
            Slot::Lent => {
                return Err(Error::RecursiveMutCallback);
            },
            _ => {},
        }
        let slot = match started {
            Ok(c) => Slot::Held(c),
            Err(e) => Slot::Failed(e),
        };
        self.set_pending(i, slot);
        Ok(())
    }

    fn set_pending(&mut self, i: usize, slot: Slot<T>)
        requires
            old(self)@.wf(),
            i < old(self)@.shells.len(),
        ensures
            final(self)@.wf(),
            final(self)@ == old(self)@.with_pending(i as int, slot),
    {
        let ghost m = old(self)@.with_pending(i as int, slot);
        self.pending.set(i, slot);
        proof {
            assert(self@.pending =~= m.pending);
            assert(self@ == m);
            assert forall|j: int| 0 <= j < self@.shells.len() implies #[trigger] self@.shell_wf(j) by {
                assert(old(self)@.shell_wf(j));
            }
        }
    }

    /// Lends the computation of asynchronous callback `f` to the host, which
    /// advances it and gives it back with `end_poll`. A computation that failed
    /// before it ran yields its error, once.
    pub fn begin_poll(&mut self, f: Function) -> (r: Result<T, Error>)
        requires
            old(self)@.wf(),
            old(self)@.is_async_function(f),
        ensures
            final(self)@.wf(),
            old(self)@.same_shape(final(self)@),
            match old(self)@.pending[f.id as int] {
                Slot::Held(c) => r == Ok::<T, Error>(c) && final(self)@ == old(self)@.with_pending(
                    f.id as int,
                    Slot::Lent,
                ),
                Slot::Failed(e) => r == Err::<T, Error>(e) && final(self)@ == old(
                    self,
                )@.with_pending(f.id as int, Slot::Empty),
                Slot::Lent => r == Err::<T, Error>(Error::RecursiveMutCallback) && final(self)@
                    == old(self)@,
                Slot::Empty => r == Err::<T, Error>(Error::CallbackDestructed) && final(self)@
                    == old(self)@,
            },
    {
        let i = f.id;
        match &self.pending[i] {
            Slot::Lent => {
                return Err(Error::RecursiveMutCallback);
            },
            Slot::Empty => {
                return Err(Error::CallbackDestructed);
            },
            Slot::Failed(e) => {
                let e = *e;
                self.set_pending(i, Slot::Empty);
                return Err(e);
            },
            Slot::Held(_) => {},
        }
        let mut slot = Slot::Lent;
        self.pending.set_and_swap(i, &mut slot);
        match slot {
            Slot::Held(c) => {
                proof {
                    let m = old(self)@.with_pending(i as int, Slot::Lent);
                    assert(self@.pending =~= m.pending);
                    assert(self@ == m);
                    assert forall|j: int| 0 <= j < self@.shells.len() implies #[trigger] self@.shell_wf(j) by {
                        assert(old(self)@.shell_wf(j));
                    }
                }
                Ok(c)
            },
            _ => vstd::pervasive::unreached(),
        }
    }

    /// Gives back the computation lent by `begin_poll`: `Some` while it is still
    /// running, `None` once it has completed. A computation detached meanwhile
    /// stays detached.
    pub fn end_poll(&mut self, f: Function, running: Option<T>)
        requires
            old(self)@.wf(),
            old(self)@.is_async_function(f),
        ensures
            final(self)@.wf(),
            old(self)@.same_shape(final(self)@),
            old(self)@.pending[f.id as int] is Lent ==> final(self)@ == old(self)@.with_pending(
                f.id as int,
                match running {
                    Some(c) => Slot::Held(c),
                    None => Slot::Empty,
                },
            ),
            old(self)@.pending[f.id as int] !is Lent ==> final(self)@ == old(self)@,
    {
        let i = f.id;
        let lent = match &self.pending[i] {
            Slot::Lent => true,
            _ => false,
        };
        if lent {
            let slot = match running {
                Some(c) => Slot::Held(c),
                None => Slot::Empty,
            };
            self.set_pending(i, slot);
        }
    }

    /// Whether descriptor `d` is in the process-wide table.
    pub fn is_registered(&self, d: usize) -> (r: bool)
        ensures
            r == (d < self@.registered.len() && self@.registered[d as int]),
    {
        d < self.registered.len() && self.registered[d]
    }

    /// The throwaway descriptor attached to `ud`, if it has one.
    pub fn descriptor_of(&self, ud: AnyUserData) -> (r: Option<usize>)
        requires
            self@.wf(),
            self@.is_userdata(ud),
        ensures
            match self@.shells[ud.id as int].kind {
                ShellKind::NonStaticUserData { descriptor } => r == Some(descriptor),
                _ => r is None,
            },
    {
        match self.shells[ud.id].kind {
            ShellKind::NonStaticUserData { descriptor } => Some(descriptor),
            _ => None,
        }
    }

    /// Descriptor `d`, registered or not.
    pub fn descriptor(&self, d: usize) -> (r: &Descriptor)
        requires
            d < self@.metatables.len(),
        ensures
            *r == self@.metatables[d as int],
    {
        &self.metatables[d]
    }

    /// Number of shells the runtime has made.
    pub fn shell_count(&self) -> (r: usize)
        ensures
            r == self@.shells.len(),
    {
        self.shells.len()
    }

    /// The runtime-visible part of shell `id`.
    pub fn shell(&self, id: usize) -> (r: Shell)
        requires
            id < self@.shells.len(),
        ensures
            r == self@.shells[id as int],
    {
        self.shells[id]
    }

    /// Whether shell `id` holds no host data and no back-reference.
    pub fn is_inert(&self, id: usize) -> (r: bool)
        requires
            self@.wf(),
            id < self@.shells.len(),
        ensures
            r == self@.inert(id as int),
    {
        let a = match &self.payloads[id] {
            Slot::Empty => true,
            _ => false,
        };
        let b = match &self.pending[id] {
            Slot::Empty => true,
            _ => false,
        };
        a && b && !self.shells[id].runtime_ref
    }

    /// Takes a fresh scope identity.
    pub(crate) fn new_scope(&mut self) -> (id: u64)
        requires
            old(self)@.wf(),
            old(self)@.next_scope < u64::MAX,
        ensures
            final(self)@.wf(),
            id == old(self)@.next_scope,
            final(self)@ == (RuntimeModel { next_scope: (id + 1) as u64, ..old(self)@ }),
    {
        let id = self.next_scope;
        self.next_scope = id + 1;
        proof {
            assert forall|j: int| 0 <= j < self@.shells.len() implies #[trigger] self@.shell_wf(j) by {
                assert(old(self)@.shell_wf(j));
            }
        }
        id
    }

    /// Appends a shell and takes a handle on it.
    pub(crate) fn alloc_shell(&mut self, kind: ShellKind, owner: u64, payload: Slot<T>) -> (id:
        usize)
        requires
            old(self)@.wf(),
            owner < old(self)@.next_scope,
            old(self)@.kind_fits(kind),
            kind !is NonStaticUserData,
        ensures
            final(self)@.wf(),
            id == old(self)@.shells.len(),
            final(self)@ == old(self)@.allocated(kind, owner, payload),
    {
        let id = self.shells.len();
        let runtime_ref = match kind {
            ShellKind::Function { .. } | ShellKind::AsyncFunction => true,
            _ => false,
        };
        self.shells.push(Shell { kind, owner, runtime_ref, readers: 0 });
        self.payloads.push(payload);
        self.pending.push(Slot::Empty);
        // Reading the length back bounds it by `usize::MAX`.
        let _count = self.shells.len();
        proof {
            let m = old(self)@.allocated(kind, owner, payload);
            assert(self@.shells =~= m.shells);
            assert(self@.payloads =~= m.payloads);
            assert(self@.pending =~= m.pending);
            assert(self@ == m);
            assert forall|j: int| 0 <= j < self@.shells.len() implies #[trigger] self@.shell_wf(j) by {
                if j < id {
                    assert(old(self)@.shell_wf(j));
                }
            }
            assert forall|a: int, b: int|
                0 <= a < self@.shells.len() && 0 <= b < self@.shells.len() && (
                #[trigger] self@.shells[a]).kind is NonStaticUserData && (
                #[trigger] self@.shells[b]).kind is NonStaticUserData && self@.shells[a].kind
                    == self@.shells[b].kind implies a == b by {
                assert(a < id && b < id);
                assert(old(self)@.shells[a] == self@.shells[a]);
                assert(old(self)@.shells[b] == self@.shells[b]);
            }
        }
        id
    }

    /// Registers descriptor `d` in the process-wide table, writes `v` into the
    /// reserved storage of shell `i`, and attaches the descriptor to it.
    pub(crate) fn attach_object(&mut self, i: usize, d: Descriptor, v: T) -> (desc: usize)
        requires
            old(self)@.wf(),
            i < old(self)@.shells.len(),
            old(self)@.shells[i as int].kind is Reserved,
        ensures
            final(self)@.wf(),
            desc == old(self)@.metatables.len(),
            final(self)@ == old(self)@.attached(i as int, d, v),
    {
        let ghost m = old(self)@.attached(i as int, d, v);
        let desc = self.metatables.len();
        self.metatables.push(d);
        // Reading the length back bounds it by `usize::MAX`.
        let _count = self.metatables.len();
        self.registered.push(true);
        let s = self.shells[i];
        self.shells.set(i, Shell { kind: ShellKind::NonStaticUserData { descriptor: desc }, ..s });
        self.payloads.set(i, Slot::Held(v));
        proof {
            assert(self@.shells =~= m.shells);
            assert(self@.payloads =~= m.payloads);
            assert(self@.metatables =~= m.metatables);
            assert(self@.registered =~= m.registered);
            assert(self@ == m);
            assert forall|j: int| 0 <= j < self@.shells.len() implies #[trigger] self@.shell_wf(j) by {
                assert(old(self)@.shell_wf(j));
            }
            assert forall|a: int, b: int|
                0 <= a < self@.shells.len() && 0 <= b < self@.shells.len() && (
                #[trigger] self@.shells[a]).kind is NonStaticUserData && (
                #[trigger] self@.shells[b]).kind is NonStaticUserData && self@.shells[a].kind
                    == self@.shells[b].kind implies a == b by {
                assert(old(self)@.shell_wf(a));
                assert(old(self)@.shell_wf(b));
                if a != i as int && b != i as int {
                    assert(old(self)@.shells[a] == self@.shells[a]);
                    assert(old(self)@.shells[b] == self@.shells[b]);
                }
            }
        }
        desc
    }

    /// Strips shell `i` of its hidden payloads and its back-reference, and
    /// deregisters its throwaway descriptor; the host values it held are appended
    /// to `out`. Never fails.
    pub(crate) fn detach(&mut self, i: usize, out: &mut Vec<T>)
        requires
            old(self)@.wf(),
            i < old(self)@.shells.len(),
        ensures
            final(self)@.wf(),
            final(self)@ == old(self)@.detached(i as int),
            final(out)@ == old(out)@ + old(self)@.released(i as int),
    {
        proof {
            assert(old(self)@.shell_wf(i as int));
        }
        let ghost m = old(self)@.detached(i as int);
        let ghost rel = old(self)@.released(i as int);
        let mut first = Slot::Empty;
        self.payloads.set_and_swap(i, &mut first);
        match first {
            Slot::Held(v) => {
                out.push(v);
            },
            _ => {},
        }
        let ghost mid = out@;
        let mut second = Slot::Empty;
        self.pending.set_and_swap(i, &mut second);
        match second {
            Slot::Held(v) => {
                out.push(v);
            },
            _ => {},
        }
        let s = self.shells[i];
        self.shells.set(i, Shell { runtime_ref: false, readers: 0, ..s });
        match s.kind {
            ShellKind::NonStaticUserData { descriptor } => {
                self.registered.set(descriptor, false);
            },
            _ => {},
        }
        proof {
            assert(self@.shells =~= m.shells);
            assert(self@.payloads =~= m.payloads);
            assert(self@.pending =~= m.pending);
            assert(self@.registered =~= m.registered);
            assert(self@ == m);
            assert(final(out)@ =~= old(out)@ + rel);
            assert forall|j: int| 0 <= j < self@.shells.len() implies #[trigger] self@.shell_wf(j) by {
                assert(old(self)@.shell_wf(j));
            }
        }
    }

    /// Looks up, as script code does, the method named `name` of an object that
    /// has its own descriptor.
    pub fn get_method(&self, ud: AnyUserData, name: &[u8]) -> (r: Option<Function>)
        requires
            self@.wf(),
            self@.is_userdata(ud),
        ensures
            r == self@.method_of(ud, name@),
    {
        proof {
            assert(self@.shell_wf(ud.id as int));
        }
        match self.shells[ud.id].kind {
            ShellKind::NonStaticUserData { descriptor } => match &self.metatables[descriptor].methods {
                Some(t) => find(t, name),
                None => None,
            },
            _ => None,
        }
    }
}

} // verus!
