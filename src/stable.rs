use candid::Principal;
use ic_stable_structures::cell::{InitError, ValueError};
use ic_stable_structures::memory_manager::{MemoryId, MemoryManager, VirtualMemory};
use ic_stable_structures::{DefaultMemoryImpl, StableBTreeMap, StableCell};
use vstd::prelude::*;

verus! {

/// The caller identity of candid, carried through as an opaque owner.
#[verifier::external_type_specification]
#[verifier::external_body]
pub struct ExPrincipal(candid::Principal);

/// std's `RefCell`, which the in-process backing memory is made of.
#[verifier::external_type_specification]
#[verifier::external_body]
#[verifier::reject_recursive_types(T)]
pub struct ExRefCell<T: ?Sized>(core::cell::RefCell<T>);

/// Why a stable cell could not be opened.
#[verifier::external_type_specification]
#[verifier::external_body]
pub struct ExInitError(ic_stable_structures::cell::InitError);

/// Why a stable cell could not be written.
#[verifier::external_type_specification]
#[verifier::external_body]
pub struct ExValueError(ic_stable_structures::cell::ValueError);

/// Shares one backing memory among the stable structures of the store.
#[verifier::external_body]
pub struct Memories {
    manager: MemoryManager<DefaultMemoryImpl>,
}

/// One of the memories handed out by a `Memories`.
#[verifier::external_body]
pub struct Region {
    memory: VirtualMemory<DefaultMemoryImpl>,
}

/// The durable ordered map from (owner, id) to an encoded record.
#[verifier::external_body]
pub struct RecordMap {
    map: StableBTreeMap<(Principal, u32), Vec<u8>, VirtualMemory<DefaultMemoryImpl>>,
}

/// The durable cell that holds the last issued id.
#[verifier::external_body]
pub struct IdCell {
    cell: StableCell<u32, VirtualMemory<DefaultMemoryImpl>>,
}

/// The entries of a durable record map.
pub uninterp spec fn map_entries(m: RecordMap) -> Map<(Principal, u32), Seq<u8>>;

/// The value held by a durable id cell.
pub uninterp spec fn cell_value(c: IdCell) -> u32;

/// Relies on `MemoryManager::init`: it divides `memory` into regions, reusing
/// the division already recorded there. It aborts when `memory` holds a
/// division in a layout version it does not support; such memory is a fatal
/// persistence failure, which no contract here can exclude beforehand.
#[verifier::external_body]
pub(crate) fn memories_init(memory: DefaultMemoryImpl) -> (r: Memories) {
    Memories { manager: MemoryManager::init(memory) }
}

/// Relies on `MemoryManager::get`: the region with the given id; `MemoryId::new`
/// panics on the one id that the manager reserves (255).
#[verifier::external_body]
pub(crate) fn memories_get(m: &Memories, id: u8) -> (r: Region)
    requires
        id != 255,
{
    Region { memory: m.manager.get(MemoryId::new(id)) }
}

/// Relies on `StableBTreeMap::init`: it opens the map kept in `region`, or
/// makes an empty one there; what it holds is whatever was stored before. It
/// aborts when `region` holds a map in a layout it cannot read (an unknown
/// version or a damaged allocator header): a fatal persistence failure.
#[verifier::external_body]
pub(crate) fn map_init(region: Region) -> (r: RecordMap) {
    RecordMap { map: StableBTreeMap::init(region.memory) }
}

/// Relies on `StableBTreeMap::new`: it makes an empty map in `region`,
/// discarding whatever was there.
#[verifier::external_body]
pub(crate) fn map_new(region: Region) -> (r: RecordMap)
    ensures
        map_entries(r).dom().is_empty(),
{
    RecordMap { map: StableBTreeMap::new(region.memory) }
}

/// Relies on `StableBTreeMap::get`: the value stored under the key, if any.
#[verifier::external_body]
pub(crate) fn map_get(m: &RecordMap, owner: Principal, id: u32) -> (r: Option<Vec<u8>>)
    ensures
        r is Some <==> map_entries(*m).contains_key((owner, id)),
        r matches Some(v) ==> v@ == map_entries(*m)[(owner, id)],
{
    m.map.get(&(owner, id))
}

/// Relies on `StableBTreeMap::insert`: the key then holds the value, and no
/// other entry changes.
#[verifier::external_body]
pub(crate) fn map_insert(m: &mut RecordMap, owner: Principal, id: u32, value: Vec<u8>)
    ensures
        map_entries(*final(m)) == map_entries(*old(m)).insert((owner, id), value@),
{
    m.map.insert((owner, id), value);
}

/// Relies on `StableBTreeMap::remove`: the key is then absent, and no other
/// entry changes.
#[verifier::external_body]
pub(crate) fn map_remove(m: &mut RecordMap, owner: Principal, id: u32)
    ensures
        map_entries(*final(m)) == map_entries(*old(m)).remove((owner, id)),
{
    m.map.remove(&(owner, id));
}

/// Relies on `StableBTreeMap::range`: it yields, in ascending key order, the
/// entries whose keys lie in the range. Keys compare as tuples, first by
/// owner, so the keys from `(owner, 0)` to `(owner, u32::MAX)` are exactly
/// those of `owner`, in ascending id.
#[verifier::external_body]
pub(crate) fn map_owner_range(m: &RecordMap, owner: Principal) -> (r: Vec<(u32, Vec<u8>)>)
    ensures
        forall|i: int, j: int| 0 <= i < j < r@.len() ==> r@[i].0 < r@[j].0,
        forall|i: int|
            0 <= i < r@.len() ==> map_entries(*m).contains_key((owner, #[trigger] r@[i].0))
                && map_entries(*m)[(owner, r@[i].0)] == r@[i].1@,
        forall|id: u32|
            map_entries(*m).contains_key((owner, id)) ==> exists|i: int|
                0 <= i < r@.len() && #[trigger] r@[i].0 == id,
{
    m.map.range((owner, u32::MIN)..=(owner, u32::MAX)).map(|((_, id), v)| (id, v)).collect()
}

/// Relies on `StableCell::init`: it opens the cell kept in `region`, or makes
/// one there that holds `default`. It aborts when `region` holds a cell whose
/// stored value is not four bytes long: a fatal persistence failure.
#[verifier::external_body]
pub(crate) fn cell_init(region: Region, default: u32) -> (r: Result<IdCell, InitError>) {
    StableCell::init(region.memory, default).map(|cell| IdCell { cell })
}

/// Relies on `StableCell::new`: on success the new cell in `region` holds
/// `value`; it fails only when the memory cannot grow to one page.
#[verifier::external_body]
pub(crate) fn cell_new(region: Region, value: u32) -> (r: Result<IdCell, ValueError>)
    ensures
        r matches Ok(c) ==> cell_value(c) == value,
{
    StableCell::new(region.memory, value).map(|cell| IdCell { cell })
}

/// Relies on `StableCell::get`: the value the cell holds.
#[verifier::external_body]
pub(crate) fn cell_get(c: &IdCell) -> (r: u32)
    ensures
        r == cell_value(*c),
{
    *c.cell.get()
}

/// Relies on `StableCell::set`: it fails only when the memory must grow and
/// cannot. A cell made by `StableCell::new` or `StableCell::init` already has
/// at least one page, and a `u32` takes four bytes, so the memory never needs
/// to grow: the write succeeds and the cell then holds `value`.
#[verifier::external_body]
pub(crate) fn cell_set(c: &mut IdCell, value: u32) -> (r: Result<u32, ValueError>)
    ensures
        r is Ok,
        cell_value(*final(c)) == value,
{
    c.cell.set(value)
}

} // verus!
