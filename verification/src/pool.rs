//! Entity handles and the runtime directory that resolves them.
use vstd::prelude::*;
use std::collections::HashMap;

verus! {

/// Generational entity handle: an index into the directory's address
/// table plus the generation it was issued for.
#[derive(Debug, Clone, Copy, PartialEq, Eq, Hash, Structural)]
pub struct Handle {
    index: u32,
    generation: u32,
}

impl Handle {
    /// The table index this handle refers to.
    pub closed spec fn idx(self) -> u32 {
        self.index
    }

    /// The generation this handle was issued for.
    pub closed spec fn gen(self) -> u32 {
        self.generation
    }

    /// The null handle (index 0, generation 0).
    pub fn none() -> (h: Self)
        ensures
            h.idx() == 0,
            h.gen() == 0,
    {
        Self { index: 0, generation: 0 }
    }

    pub fn new(index: u32, generation: u32) -> (h: Self)
        ensures
            h.idx() == index,
            h.gen() == generation,
    {
        Self { index, generation }
    }

    pub fn index(&self) -> (i: u32)
        ensures
            i == self.idx(),
    {
        self.index
    }

    pub fn generation(&self) -> (g: u32)
        ensures
            g == self.gen(),
    {
        self.generation
    }
}

/// Two handles are equal exactly when index and generation agree.
pub proof fn lemma_handle_eq(a: Handle, b: Handle)
    ensures
        (a == b) == (a.idx() == b.idx() && a.gen() == b.gen()),
{
}

/// Lightweight entity identity key.
#[derive(Debug, Clone, Copy, PartialEq, Eq, Hash)]
pub struct LocalUuid(pub [u8; 16]);

impl LocalUuid {
    /// The all-zero UUID, which names no entity.
    pub fn zero() -> (u: Self)
        ensures
            forall|i: int| 0 <= i < 16 ==> u.0@[i] == 0u8,
    {
        Self([0u8; 16])
    }
}

/// The number that the first `n` bytes of `b` spell, most significant
/// byte first.
pub open spec fn uuid_number(b: Seq<u8>, n: int) -> int
    decreases n,
{
    if n <= 0 {
        0
    } else {
        uuid_number(b, n - 1) * 256 + b[n - 1] as int
    }
}

/// `256` to the power `n`: one more than the largest number `n` bytes spell.
pub open spec fn byte_span(n: int) -> int
    decreases n,
{
    if n <= 0 {
        1
    } else {
        byte_span(n - 1) * 256
    }
}

/// The directory's key for a UUID: the 128-bit number its 16 bytes spell,
/// most significant byte first.
pub open spec fn uuid_key(b: Seq<u8>) -> u128 {
    uuid_number(b, 16) as u128
}

proof fn lemma_uuid_number_bound(b: Seq<u8>, n: int)
    requires
        0 <= n <= b.len(),
    ensures
        0 <= uuid_number(b, n) < byte_span(n),
        byte_span(n) <= byte_span(16) || n > 16,
    decreases n,
{
    if n > 0 {
        lemma_uuid_number_bound(b, n - 1);
        let u = uuid_number(b, n - 1);
        let s = byte_span(n - 1);
        let x = b[n - 1] as int;
        assert(u * 256 + x < s * 256) by (nonlinear_arith)
            requires
                0 <= u < s,
                0 <= x < 256,
        ;
        assert(0 <= u * 256 + x) by (nonlinear_arith)
            requires
                0 <= u,
                0 <= x,
        ;
    }
    lemma_byte_span_grows(n, 16);
}

proof fn lemma_byte_span_positive(n: int)
    ensures
        1 <= byte_span(n),
    decreases n,
{
    if n > 0 {
        lemma_byte_span_positive(n - 1);
    }
}

proof fn lemma_byte_span_grows(m: int, n: int)
    ensures
        m <= n ==> byte_span(m) <= byte_span(n),
    decreases n - m,
{
    if m < n {
        lemma_byte_span_grows(m, n - 1);
        lemma_byte_span_positive(n - 1);
    }
}

proof fn lemma_byte_span_full()
    ensures
        byte_span(16) == u128::MAX + 1,
{
    reveal_with_fuel(byte_span, 17);
}

/// Bytes of the same length that spell the same number are the same bytes.
proof fn lemma_uuid_number_injective(a: Seq<u8>, b: Seq<u8>, n: int)
    requires
        0 <= n <= a.len(),
        n <= b.len(),
        uuid_number(a, n) == uuid_number(b, n),
    ensures
        forall|i: int| 0 <= i < n ==> a[i] == b[i],
    decreases n,
{
    if n > 0 {
        let v = uuid_number(a, n);
        lemma_uuid_number_bound(a, n - 1);
        lemma_uuid_number_bound(b, n - 1);
        vstd::arithmetic::div_mod::lemma_fundamental_div_mod_converse(v, 256, uuid_number(a, n - 1), a[n - 1] as int);
        vstd::arithmetic::div_mod::lemma_fundamental_div_mod_converse(v, 256, uuid_number(b, n - 1), b[n - 1] as int);
        lemma_uuid_number_injective(a, b, n - 1);
    }
}

/// Different UUIDs have different directory keys.
pub proof fn lemma_uuid_key_injective(a: LocalUuid, b: LocalUuid)
    requires
        uuid_key(a.0@) == uuid_key(b.0@),
    ensures
        a.0@ == b.0@,
{
    lemma_uuid_number_bound(a.0@, 16);
    lemma_uuid_number_bound(b.0@, 16);
    lemma_byte_span_full();
    lemma_uuid_number_injective(a.0@, b.0@, 16);
    assert(a.0@ =~= b.0@);
}

/// The directory key of a UUID.
fn uuid_key_of(uuid: &LocalUuid) -> (k: u128)
    ensures
        k == uuid_key(uuid.0@),
{
    let mut k: u128 = 0;
    let mut i: usize = 0;
    proof {
        lemma_byte_span_full();
    }
    while i < 16
        invariant
            i <= 16,
            uuid.0@.len() == 16,
            k as int == uuid_number(uuid.0@, i as int),
            byte_span(16) == u128::MAX + 1,
        decreases 16 - i,
    {
        proof {
            lemma_uuid_number_bound(uuid.0@, i + 1);
        }
        k = k * 256 + uuid.0[i] as u128;
        i = i + 1;
    }
    k
}

/// Address record for a registered entity.
#[derive(Debug, Clone, Copy)]
pub struct AddressMapping {
    pub page_id: u32,
    pub chunk_idx: u32,
    pub slot_idx: u32,
    pub generation: u32,
    pub is_alive: bool,
}

/// How a handle resolves against an address table: the record at its
/// index when that record is alive and of the handle's generation.
pub open spec fn resolve(table: Seq<AddressMapping>, handle: Handle) -> Option<AddressMapping> {
    if handle.idx() < table.len() && table[handle.idx() as int].is_alive && table[handle.idx() as int].generation
        == handle.gen() {
        Some(table[handle.idx() as int])
    } else {
        None
    }
}

/// Handle registry: UUID → handle, and handle index → address record.
///
/// The UUID → handle map is keyed by `uuid_key`, the 128-bit number that
/// the UUID's bytes spell, which determines the UUID
/// (`lemma_uuid_key_injective`).
pub struct RuntimeDirectory {
    uuid_to_handle: HashMap<u128, Handle>,
    address_table: Vec<AddressMapping>,
    free_slots: Vec<u32>,
}

impl RuntimeDirectory {
    /// The address table, indexed by handle index.
    pub closed spec fn table(&self) -> Seq<AddressMapping> {
        self.address_table@
    }

    /// The UUID → handle map, keyed by `uuid_key`.
    pub closed spec fn handles(&self) -> Map<u128, Handle> {
        self.uuid_to_handle@
    }

    /// Create an empty directory; the chunk count is not used for sizing.
    pub fn new(_total_chunks: usize) -> (d: Self)
        ensures
            d.table() == Seq::<AddressMapping>::empty(),
            d.handles() == Map::<u128, Handle>::empty(),
    {
        Self { uuid_to_handle: HashMap::new(), address_table: Vec::new(), free_slots: Vec::new() }
    }

    /// Register an entity: append its address record (generation 1, alive)
    /// and map its UUID to a handle for that record.
    pub fn register_entity(&mut self, uuid: LocalUuid, page_id: u32, chunk_idx: u32, slot_idx: u32) -> (h: Handle)
        requires
            old(self).table().len() < usize::MAX,
        ensures
            h.idx() == old(self).table().len() as u32,
            h.gen() == 1,
            final(self).table() == old(self).table().push(
                AddressMapping { page_id, chunk_idx, slot_idx, generation: 1, is_alive: true },
            ),
            final(self).handles() == old(self).handles().insert(uuid_key(uuid.0@), h),
    {
        broadcast use vstd::std_specs::hash::group_hash_axioms;
        let generation: u32 = 1;
        let mapping = AddressMapping { page_id, chunk_idx, slot_idx, generation, is_alive: true };
        let index = self.address_table.len() as u32;
        self.address_table.push(mapping);
        let handle = Handle::new(index, generation);
        let key = uuid_key_of(&uuid);
        self.uuid_to_handle.insert(key, handle);
        handle
    }

    /// Resolve a handle: the record at its index, if that record is alive
    /// and of the handle's generation.
    pub fn get_mapping(&self, handle: Handle) -> (m: Option<AddressMapping>)
        ensures
            m == resolve(self.table(), handle),
    {
        let i = handle.index() as usize;
        if i >= self.address_table.len() {
            return None;
        }
        let mapping = self.address_table[i];
        if mapping.is_alive && mapping.generation == handle.generation() {
            Some(mapping)
        } else {
            None
        }
    }
}

/// Registering an entity and then resolving the returned handle yields
/// the registered record, and the handle's index is the number of records
/// before the call, while every handle of an earlier record resolves as it
/// did (when the new index fits in a handle).
pub proof fn lemma_register_then_resolve(
    before: Seq<AddressMapping>,
    page_id: u32,
    chunk_idx: u32,
    slot_idx: u32,
    h: Handle,
    other: Handle,
)
    requires
        before.len() <= u32::MAX,
        h.idx() == before.len() as u32,
        h.gen() == 1,
        other.idx() < before.len(),
    ensures
        h.idx() == before.len(),
        resolve(
            before.push(AddressMapping { page_id, chunk_idx, slot_idx, generation: 1, is_alive: true }),
            h,
        ) == Some(AddressMapping { page_id, chunk_idx, slot_idx, generation: 1, is_alive: true }),
        resolve(
            before.push(AddressMapping { page_id, chunk_idx, slot_idx, generation: 1, is_alive: true }),
            other,
        ) == resolve(before, other),
{
}

} // verus!
