//! Append-only slot storage addressed by typed handles.
//!
//! An [`Arena`] hands out a [`Handle`] for every value stored in it. Slots are
//! never freed or reused, so a handle stays valid for the whole life of the
//! arena: later allocations can only grow the slot sequence, and `replace`
//! swaps a slot's value without disturbing any other slot. A handle can be
//! erased to a [`TypeErasedHandle`] carrying a runtime type key, and recovered
//! later with `downcast`.
use core::marker::PhantomData;
use vstd::prelude::*;

verus! {

/// Identifies one asset type at runtime, so that a type-erased handle can be
/// safely downcast. Distinct asset types must choose distinct keys.
pub trait AssetKey {
    /// The key, as contracts see it.
    spec fn type_key_spec() -> u64;

    /// The key, as runtime code computes it.
    fn type_key() -> (k: u64)
        ensures
            k == Self::type_key_spec(),
    ;
}

/// A copyable reference to one slot of an [`Arena<T>`]: an index tagged with
/// the stored type. Its view is the index.
#[derive(Debug)]
pub struct Handle<T> {
    id: u32,
    marker: PhantomData<T>,
}

impl<T> View for Handle<T> {
    type V = int;

    closed spec fn view(&self) -> int {
        self.id as int
    }
}

impl<T> Handle<T> {
    fn new(id: u32) -> (h: Handle<T>)
        ensures
            h@ == id,
    {
        Handle { id, marker: PhantomData }
    }
}

impl<T> Handle<T> {
    /// The slot index the handle refers to.
    pub fn raw_index(&self) -> (i: u32)
        ensures
            i == self@,
    {
        self.id
    }
}

impl<T: AssetKey> Handle<T> {
    /// Strips the compile-time type tag, keeping the type's runtime key so the
    /// handle can later be recovered with [`TypeErasedHandle::downcast`].
    pub fn to_type_erased(self) -> (e: TypeErasedHandle)
        ensures
            e@ == (self@, T::type_key_spec()),
    {
        TypeErasedHandle { id: self.id, type_key: T::type_key() }
    }
}

impl<T> Clone for Handle<T> {
    fn clone(&self) -> (h: Self)
        ensures
            h == *self,
    {
        Handle { id: self.id, marker: PhantomData }
    }
}

impl<T> Copy for Handle<T> {}

impl<T> PartialEq for Handle<T> {
    fn eq(&self, other: &Self) -> bool {
        self.id == other.id
    }
}

impl<T> Eq for Handle<T> {}

impl<T> vstd::std_specs::cmp::PartialEqSpecImpl for Handle<T> {
    open spec fn obeys_eq_spec() -> bool {
        true
    }

    open spec fn eq_spec(&self, other: &Self) -> bool {
        self@ == other@
    }
}

/// A handle whose compile-time type tag has been erased; it carries the slot
/// index together with the runtime key of the type it was issued for. Its view
/// is the pair (index, type key).
#[derive(Debug)]
pub struct TypeErasedHandle {
    id: u32,
    type_key: u64,
}

impl View for TypeErasedHandle {
    type V = (int, u64);

    closed spec fn view(&self) -> (int, u64) {
        (self.id as int, self.type_key)
    }
}

/// What [`TypeErasedHandle::downcast`] returns: a re-tagged handle with the
/// same index when the requested type's key matches, and the original erased
/// handle unchanged when it does not.
pub open spec fn downcast_post<T: AssetKey>(
    e: TypeErasedHandle,
    r: Result<Handle<T>, TypeErasedHandle>,
) -> bool {
    if e@.1 == T::type_key_spec() {
        r matches Ok(h) && h@ == e@.0
    } else {
        r == Err::<Handle<T>, TypeErasedHandle>(e)
    }
}

impl TypeErasedHandle {
    /// Recovers a typed handle if `T` is the type this handle was erased from;
    /// otherwise hands the erased handle back unchanged so the caller can try
    /// another candidate type.
    pub fn downcast<T: AssetKey>(self) -> (r: Result<Handle<T>, TypeErasedHandle>)
        ensures
            downcast_post::<T>(self, r),
    {
        if self.type_key == T::type_key() {
            Ok(Handle::new(self.id))
        } else {
            Err(self)
        }
    }

    /// The runtime key of the type this handle was erased from.
    pub fn erased_type_id(&self) -> (k: u64)
        ensures
            k == self@.1,
    {
        self.type_key
    }

    /// The slot index the handle refers to.
    pub fn raw_index(&self) -> (i: u32)
        ensures
            i == self@.0,
    {
        self.id
    }
}

impl Clone for TypeErasedHandle {
    fn clone(&self) -> (h: Self)
        ensures
            h == *self,
    {
        TypeErasedHandle { id: self.id, type_key: self.type_key }
    }
}

impl Copy for TypeErasedHandle {}

impl PartialEq for TypeErasedHandle {
    fn eq(&self, other: &Self) -> bool {
        self.id == other.id && self.type_key == other.type_key
    }
}

impl Eq for TypeErasedHandle {}

impl vstd::std_specs::cmp::PartialEqSpecImpl for TypeErasedHandle {
    open spec fn obeys_eq_spec() -> bool {
        true
    }

    open spec fn eq_spec(&self, other: &Self) -> bool {
        self@ == other@
    }
}

/// Append-only indexed storage. Its view is the sequence of stored values;
/// a `Handle<T>` is valid for it exactly when the handle's index is below the
/// sequence's length.
#[derive(Debug)]
pub struct Arena<T> {
    slots: Vec<T>,
}

impl<T> View for Arena<T> {
    type V = Seq<T>;

    closed spec fn view(&self) -> Seq<T> {
        self.slots@
    }
}

impl<T> Arena<T> {
    /// An empty arena.
    pub fn new() -> (a: Arena<T>)
        ensures
            a@ == Seq::<T>::empty(),
    {
        Arena { slots: Vec::new() }
    }

    /// An arena whose slot `i` holds the vector's element `i`; used to
    /// duplicate storage wholesale.
    pub fn from_vec(slots: Vec<T>) -> (a: Arena<T>)
        ensures
            a@ == slots@,
    {
        Arena { slots }
    }

    /// Appends a value and returns the handle for its slot: the index equal to
    /// the arena's length before the call. Never invalidates earlier handles.
    pub fn allocate(&mut self, t: T) -> (h: Handle<T>)
        requires
            old(self)@.len() < u32::MAX,
        ensures
            final(self)@ == old(self)@.push(t),
            h@ == old(self)@.len(),
    {
        let id = self.slots.len() as u32;
        self.slots.push(t);
        Handle::new(id)
    }

    /// The value a handle refers to. A handle is only ever out of range here
    /// when it was issued by a different, shorter arena: that is a programmer
    /// error, so it is excluded rather than handled.
    pub fn get(&self, handle: Handle<T>) -> (t: &T)
        requires
            handle@ < self@.len(),
        ensures
            *t == self@[handle@],
    {
        &self.slots[handle.id as usize]
    }

    /// Mutable access to the value a handle refers to.
    pub fn get_mut(&mut self, handle: Handle<T>) -> (t: &mut T)
        requires
            handle@ < old(self)@.len(),
        ensures
            *t == old(self)@[handle@],
            final(self)@ == old(self)@.update(handle@, *final(t)),
    {
        &mut self.slots[handle.id as usize]
    }

    /// Swaps a new value into the handle's slot and returns the old one,
    /// leaving every other slot untouched.
    pub fn replace(&mut self, handle: Handle<T>, t: T) -> (prev: T)
        requires
            handle@ < old(self)@.len(),
        ensures
            prev == old(self)@[handle@],
            final(self)@ == old(self)@.update(handle@, t),
    {
        let mut value = t;
        let dst = self.get_mut(handle);
        core::mem::swap(dst, &mut value);
        value
    }

    /// How many slots have been allocated.
    pub fn len(&self) -> (n: usize)
        ensures
            n == self@.len(),
    {
        self.slots.len()
    }

    /// The value stored at a raw slot index.
    pub fn at_index(&self, i: usize) -> (t: &T)
        requires
            i < self@.len(),
        ensures
            *t == self@[i as int],
    {
        &self.slots[i]
    }

    /// One handle per slot, in slot order.
    pub fn handles(&self) -> (hs: Vec<Handle<T>>)
        requires
            self@.len() <= u32::MAX,
        ensures
            hs@.len() == self@.len(),
            forall|i: int| 0 <= i < hs@.len() ==> #[trigger] hs@[i]@ == i,
    {
        let mut hs: Vec<Handle<T>> = Vec::new();
        let n = self.slots.len();
        for i in 0..n
            invariant
                n <= u32::MAX,
                hs@.len() == i,
                forall|j: int| 0 <= j < i ==> #[trigger] hs@[j]@ == j,
        {
            hs.push(Handle::new(i as u32));
        }
        hs
    }
}

/// Relates two arena views when the second keeps every slot of the first, with
/// the same value. Every operation of [`Arena`] but `replace` and `get_mut`
/// preserves this relation.
pub open spec fn preserves_entries<T>(pre: Seq<T>, post: Seq<T>) -> bool {
    &&& pre.len() <= post.len()
    &&& forall|i: int| 0 <= i < pre.len() ==> post[i] == pre[i]
}

/// Law (append-only arena): an allocation keeps every handle that was valid
/// before it valid, bound to the value it already had.
pub proof fn lemma_allocate_append_only<T>(pre: Seq<T>, post: Seq<T>, value: T)
    requires
        post == pre.push(value),
    ensures
        preserves_entries(pre, post),
{
}

/// Law (append-only arena, many steps): preservation composes, so a handle
/// stays valid and keeps its value across any sequence of allocations.
pub proof fn lemma_preserves_entries_trans<T>(a: Seq<T>, b: Seq<T>, c: Seq<T>)
    requires
        preserves_entries(a, b),
        preserves_entries(b, c),
    ensures
        preserves_entries(a, c),
{
}

/// Law (in-place replacement): replacing the value of one slot keeps the
/// arena's length and leaves every other slot bound to its previous value.
pub proof fn lemma_replace_preserves_other_entries<T>(
    pre: Seq<T>,
    post: Seq<T>,
    idx: int,
    value: T,
)
    requires
        0 <= idx < pre.len(),
        post == pre.update(idx, value),
    ensures
        post.len() == pre.len(),
        post[idx] == value,
        forall|j: int| 0 <= j < pre.len() && j != idx ==> post[j] == pre[j],
{
}

/// Law (handle round trip): erasing a typed handle and downcasting the result
/// back to the same type succeeds and yields a handle with the same index.
/// The hypotheses are exactly the contracts of `to_type_erased` and
/// `downcast`.
pub proof fn lemma_erase_downcast_round_trip<T: AssetKey>(
    h: Handle<T>,
    e: TypeErasedHandle,
    r: Result<Handle<T>, TypeErasedHandle>,
)
    requires
        e@ == (h@, T::type_key_spec()),
        downcast_post::<T>(e, r),
    ensures
        r matches Ok(h2) && h2@ == h@,
{
}

/// Law (handle round trip, mismatched type): downcasting an erased handle to a
/// type whose key differs from the key it was erased with fails, handing back
/// the original erased handle unchanged.
pub proof fn lemma_erase_downcast_mismatch<T: AssetKey, U: AssetKey>(
    h: Handle<T>,
    e: TypeErasedHandle,
    r: Result<Handle<U>, TypeErasedHandle>,
)
    requires
        T::type_key_spec() != U::type_key_spec(),
        e@ == (h@, T::type_key_spec()),
        downcast_post::<U>(e, r),
    ensures
        r == Err::<Handle<U>, TypeErasedHandle>(e),
{
}

} // verus!

verus! {

/// An arena is measurably larger than its view, so recursion that steps from a
/// structure holding an arena into the arena's slots terminates.
pub proof fn lemma_arena_decreases_to_view<T>(a: Arena<T>)
    ensures
        decreases_to!(a => a@),
{
    assert(decreases_to!(a => a.slots));
    assert(decreases_to!(a.slots => a.slots@));
}

/// A handle's view is the slot index it was created from, a 32-bit value.
pub proof fn lemma_handle_view_bounds<T>(h: Handle<T>)
    ensures
        0 <= h@ <= u32::MAX,
{
}

} // verus!
