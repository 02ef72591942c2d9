//! The AArch64 early address space: translation tables built from a
//! reserved pool of table pages, walked the way the MMU walks them, and the
//! checks made before the MMU is switched over to them.
use vstd::prelude::*;
use std::collections::HashMap;
use crate::aarch64::paging::{
    decode_result, identity_at, ips_of, lemma_page_descriptor_round_trip, level_index,
    page_descriptor, page_descriptor_result, page_raw, parange_bits, physical_end_of, range_end_of,
    range_error, request_error, tcr_value, IdentityRange, MAIR_VALUE, PL011_BASE,
    SCTLR_REQUIRED_BITS, TCR_FIXED_BITS,
    table_descriptor, table_descriptor_result, table_step, virtual_end_of, walk_spec, walk_with,
    CpuFeatures, MappingPlan, MappingRequest, MemoryType, PagingError, Permissions, Translation,
    LOW_VA_LIMIT, MAX_TABLE_PAGES, OUTPUT_ADDRESS_MASK, PAGE_SIZE, TABLE_ENTRIES,
};

verus! {

/// Entry `index` of the table page `table`; a page holding no table reads as zero.
pub open spec fn entry_at(t: Map<u64, Seq<u64>>, table: u64, index: int) -> u64 {
    if t.contains_key(table) && 0 <= index < t[table].len() {
        t[table][index]
    } else {
        0
    }
}

/// How the walker reads entries: only pool pages hold tables.
pub open spec fn table_reader(t: Map<u64, Seq<u64>>, pool: Seq<u64>) -> spec_fn(u64, usize) -> Result<
    u64,
    PagingError,
> {
    |table: u64, index: usize|
        if !pool.contains(table) || index >= TABLE_ENTRIES {
            Err(PagingError::InvalidDescriptor)
        } else {
            Ok(entry_at(t, table, index as int))
        }
}

/// The table descriptor that links to the table page `c`.
pub open spec fn table_link(c: u64) -> u64 {
    3u64 | c
}

/// Every non-zero entry above the leaf level links to a known table one level down.
pub open spec fn links_ok(t: Map<u64, Seq<u64>>, lv: Map<u64, nat>) -> bool {
    forall|p: u64, i: int|
        #![trigger t[p][i]]
        t.contains_key(p) && lv[p] < 3 && 0 <= i < TABLE_ENTRIES && t[p][i] != 0 ==> t[p][i]
            == table_link(t[p][i] & OUTPUT_ADDRESS_MASK) && t.contains_key(
            t[p][i] & OUTPUT_ADDRESS_MASK,
        ) && lv[t[p][i] & OUTPUT_ADDRESS_MASK] == lv[p] + 1
}

/// No two entries above the leaf level link to the same table.
pub open spec fn links_unique(t: Map<u64, Seq<u64>>, lv: Map<u64, nat>) -> bool {
    forall|p1: u64, i1: int, p2: u64, i2: int|
        #![trigger t[p1][i1], t[p2][i2]]
        t.contains_key(p1) && t.contains_key(p2) && lv[p1] < 3 && lv[p2] < 3 && 0 <= i1
            < TABLE_ENTRIES && 0 <= i2 < TABLE_ENTRIES && t[p1][i1] != 0 && t[p1][i1] == t[p2][i2]
            ==> p1 == p2 && i1 == i2
}

/// The table pages form levels under the level-0 root; every table page is
/// a pool page that a descriptor can name.
#[verifier::opaque]
pub open spec fn tables_ok(t: Map<u64, Seq<u64>>, lv: Map<u64, nat>, root: u64, pool: Seq<u64>) -> bool {
    &&& forall|p: u64| #[trigger] t.contains_key(p) <==> lv.contains_key(p)
    &&& t.contains_key(root)
    &&& lv[root] == 0
    &&& forall|p: u64|
        #[trigger] t.contains_key(p) ==> t[p].len() == TABLE_ENTRIES && lv[p] <= 3 && pool.contains(
            p,
        ) && (lv[p] >= 1 ==> table_descriptor_result(p) is Ok)
    &&& links_ok(t, lv)
    &&& links_unique(t, lv)
}

/// The tables after linking entry `index` of `table` to the zeroed new table `c`.
pub open spec fn linked(t: Map<u64, Seq<u64>>, table: u64, index: int, c: u64) -> Map<u64, Seq<u64>> {
    t.insert(c, Seq::new(TABLE_ENTRIES as nat, |i: int| 0u64)).insert(
        table,
        t[table].update(index, table_link(c)),
    )
}

/// The walk of `a` through tables `t` from `root` reaches an empty entry:
/// some table on its path, or its leaf, is not there yet.
pub open spec fn walk_meets_empty_entry(t: Map<u64, Seq<u64>>, root: u64, a: u64) -> bool {
    let r0 = entry_at(t, root, level_index(a, 39) as int);
    let r1 = entry_at(t, r0 & OUTPUT_ADDRESS_MASK, level_index(a, 30) as int);
    let r2 = entry_at(t, r1 & OUTPUT_ADDRESS_MASK, level_index(a, 21) as int);
    let r3 = entry_at(t, r2 & OUTPUT_ADDRESS_MASK, level_index(a, 12) as int);
    r0 == 0 || r1 == 0 || r2 == 0 || r3 == 0
}

/// Fresh table pages for `n` new tables are fresh pages for fewer.
pub proof fn lemma_fresh_fewer(space: ActiveAddressSpace, n: int, k: int)
    requires
        space.fresh_tables(n),
        0 <= k <= n,
    ensures
        space.fresh_tables(k),
{
}

/// The walk of `a` through tables `t` from `root` follows three table
/// descriptors to a page descriptor: the leaf an unmap clears.
pub open spec fn leaf_present(t: Map<u64, Seq<u64>>, root: u64, a: u64) -> bool {
    let r0 = entry_at(t, root, level_index(a, 39) as int);
    let r1 = entry_at(t, r0 & OUTPUT_ADDRESS_MASK, level_index(a, 30) as int);
    let r2 = entry_at(t, r1 & OUTPUT_ADDRESS_MASK, level_index(a, 21) as int);
    let r3 = entry_at(t, r2 & OUTPUT_ADDRESS_MASK, level_index(a, 12) as int);
    r0 & 3 == 3 && r1 & 3 == 3 && r2 & 3 == 3 && r3 & 3 == 3
}

/// Two addresses use the same entry at every level above the leaf.
pub open spec fn same_upper_path(a: u64, b: u64) -> bool {
    &&& level_index(a, 39) == level_index(b, 39)
    &&& level_index(a, 30) == level_index(b, 30)
    &&& level_index(a, 21) == level_index(b, 21)
}

/// Two addresses use the same entry at every level.
pub open spec fn same_path(a: u64, b: u64) -> bool {
    &&& level_index(a, 39) == level_index(b, 39)
    &&& level_index(a, 30) == level_index(b, 30)
    &&& level_index(a, 21) == level_index(b, 21)
    &&& level_index(a, 12) == level_index(b, 12)
}

/// Table indices are below the entry count; the zero entry stops a walk.
pub proof fn lemma_descriptor_bits(a: u64)
    ensures
        level_index(a, 39) < TABLE_ENTRIES,
        level_index(a, 30) < TABLE_ENTRIES,
        level_index(a, 21) < TABLE_ENTRIES,
        level_index(a, 12) < TABLE_ENTRIES,
        table_step(0) == Err::<u64, PagingError>(PagingError::NotMapped),
        0u64 & 1u64 == 0u64,
        forall|o: u64| #[trigger] decode_result(0, o) == Err::<Translation, PagingError>(PagingError::NotMapped),
{
    assert((a >> 39u64) & 0x1ff < 512 && (a >> 30u64) & 0x1ff < 512 && (a >> 21u64) & 0x1ff < 512
        && (a >> 12u64) & 0x1ff < 512 && 0u64 & 3 == 0 && 0u64 & 1 == 0 && 0u64
        & !0x0060_ffff_ffff_f79fu64 == 0) by (bit_vector);
}

/// A link names its table, and stepping through it reaches that table.
pub proof fn lemma_link(c: u64)
    requires
        table_descriptor_result(c) is Ok,
    ensures
        table_step(table_link(c)) == Ok::<u64, PagingError>(c),
        table_link(c) & OUTPUT_ADDRESS_MASK == c,
        table_link(c) != 0,
        table_link(c) & 1 != 0,
        table_link(c) & 3 == 3,
        table_descriptor_result(c) == Ok::<u64, PagingError>(table_link(c)),
{
    crate::aarch64::paging::lemma_table_descriptor_round_trip(c);
    assert((3u64 | c) != 0 && (3u64 | c) & 1 != 0 && (3u64 | c) & 3 == 3) by (bit_vector);
}

/// Linking an absent entry above the leaf level to a new zeroed pool page
/// changes no walk: the new path ends at a zero entry.
pub proof fn lemma_walk_after_link(
    t: Map<u64, Seq<u64>>,
    lv: Map<u64, nat>,
    root: u64,
    pool: Seq<u64>,
    table: u64,
    index: int,
    c: u64,
    a: u64,
)
    requires
        tables_ok(t, lv, root, pool),
        t.contains_key(table),
        lv[table] < 3,
        0 <= index < TABLE_ENTRIES,
        t[table][index] == 0,
        !t.contains_key(c),
        pool.contains(c),
        table_descriptor_result(c) is Ok,
    ensures
        walk_spec(root, a, table_reader(linked(t, table, index, c), pool)) == walk_spec(
            root,
            a,
            table_reader(t, pool),
        ),
{
    reveal(tables_ok);
    reveal(walk_spec);
    let t2 = linked(t, table, index, c);
    let f = table_reader(t, pool);
    let g = table_reader(t2, pool);
    lemma_descriptor_bits(a);
    lemma_link(c);
    let i0 = level_index(a, 39);
    let i1 = level_index(a, 30);
    let i2 = level_index(a, 21);
    let i3 = level_index(a, 12);
    assert(root != c);
    assert forall|p: u64, i: usize| p != table && p != c implies #[trigger] g(p, i) == f(p, i) by {}
    assert(g(c, i1) == Ok::<u64, PagingError>(0) && f(c, i1) == Ok::<u64, PagingError>(0));
    assert(g(c, i2) == Ok::<u64, PagingError>(0) && f(c, i2) == Ok::<u64, PagingError>(0));
    assert(g(c, i3) == Ok::<u64, PagingError>(0) && f(c, i3) == Ok::<u64, PagingError>(0));
    if root >= LOW_VA_LIMIT || root % PAGE_SIZE != 0 || a >= LOW_VA_LIMIT {
    } else if root == table && i0 == index {
        assert(g(root, i0) == Ok::<u64, PagingError>(table_link(c)));
        assert(f(root, i0) == Ok::<u64, PagingError>(0));
    } else {
        assert(g(root, i0) == f(root, i0));
        let r0 = t[root][i0 as int];
        if r0 != 0 {
            let q1 = r0 & OUTPUT_ADDRESS_MASK;
            lemma_link(q1);
            assert(t.contains_key(q1) && lv[q1] == 1);
            assert(q1 != c);
            if q1 == table && i1 == index {
                assert(g(q1, i1) == Ok::<u64, PagingError>(table_link(c)));
            } else {
                assert(g(q1, i1) == f(q1, i1));
                let r1 = t[q1][i1 as int];
                if r1 != 0 {
                    let q2 = r1 & OUTPUT_ADDRESS_MASK;
                    lemma_link(q2);
                    assert(t.contains_key(q2) && lv[q2] == 2);
                    assert(q2 != c);
                    if q2 == table && i2 == index {
                        assert(g(q2, i2) == Ok::<u64, PagingError>(table_link(c)));
                    } else {
                        assert(g(q2, i2) == f(q2, i2));
                        let r2 = t[q2][i2 as int];
                        if r2 != 0 {
                            let q3 = r2 & OUTPUT_ADDRESS_MASK;
                            lemma_link(q3);
                            assert(t.contains_key(q3) && lv[q3] == 3);
                            assert(q3 != c && q3 != table);
                            assert(g(q3, i3) == f(q3, i3));
                        }
                    }
                }
            }
        }
    }
}

/// Writing the leaf entry reached from `root` through `t1`, `t2`, `t3`
/// along `va`'s path changes only the walks of addresses on the same path,
/// which then decode the written descriptor.
pub proof fn lemma_walk_after_leaf_write(
    t: Map<u64, Seq<u64>>,
    lv: Map<u64, nat>,
    root: u64,
    pool: Seq<u64>,
    va: u64,
    t1: u64,
    t2: u64,
    t3: u64,
    raw: u64,
    a: u64,
)
    requires
        tables_ok(t, lv, root, pool),
        t.contains_key(t1) && lv[t1] == 1,
        t.contains_key(t2) && lv[t2] == 2,
        t.contains_key(t3) && lv[t3] == 3,
        t[root][level_index(va, 39) as int] == table_link(t1),
        t[t1][level_index(va, 30) as int] == table_link(t2),
        t[t2][level_index(va, 21) as int] == table_link(t3),
    ensures
        !same_path(a, va) ==> walk_spec(
            root,
            a,
            table_reader(t.insert(t3, t[t3].update(level_index(va, 12) as int, raw)), pool),
        ) == walk_spec(root, a, table_reader(t, pool)),
        same_path(a, va) && root < LOW_VA_LIMIT && root % PAGE_SIZE == 0 && a < LOW_VA_LIMIT
            ==> walk_spec(
            root,
            a,
            table_reader(t.insert(t3, t[t3].update(level_index(va, 12) as int, raw)), pool),
        ) == decode_result(raw, a & 0xfff),
        same_path(a, va) && root < LOW_VA_LIMIT && root % PAGE_SIZE == 0 && a < LOW_VA_LIMIT
            ==> walk_spec(root, a, table_reader(t, pool)) == decode_result(
            t[t3][level_index(va, 12) as int],
            a & 0xfff,
        ),
{
    reveal(tables_ok);
    reveal(walk_spec);
    let j3 = level_index(va, 12);
    let tn = t.insert(t3, t[t3].update(j3 as int, raw));
    let f = table_reader(t, pool);
    let g = table_reader(tn, pool);
    lemma_descriptor_bits(a);
    lemma_descriptor_bits(va);
    lemma_link(t1);
    lemma_link(t2);
    lemma_link(t3);
    let i0 = level_index(a, 39);
    let i1 = level_index(a, 30);
    let i2 = level_index(a, 21);
    let i3 = level_index(a, 12);
    assert forall|p: u64, i: usize| p != t3 || i != j3 implies #[trigger] g(p, i) == f(p, i) by {}
    assert(root != t3 && t1 != t3 && t2 != t3);
    if root >= LOW_VA_LIMIT || root % PAGE_SIZE != 0 || a >= LOW_VA_LIMIT {
    } else {
        assert(g(root, i0) == f(root, i0));
        let r0 = t[root][i0 as int];
        if r0 != 0 {
            let q1 = r0 & OUTPUT_ADDRESS_MASK;
            lemma_link(q1);
            assert(t.contains_key(q1) && lv[q1] == 1);
            assert(g(q1, i1) == f(q1, i1));
            let r1 = t[q1][i1 as int];
            if r1 != 0 {
                let q2 = r1 & OUTPUT_ADDRESS_MASK;
                lemma_link(q2);
                assert(t.contains_key(q2) && lv[q2] == 2);
                assert(g(q2, i2) == f(q2, i2));
                let r2 = t[q2][i2 as int];
                if r2 != 0 {
                    let q3 = r2 & OUTPUT_ADDRESS_MASK;
                    lemma_link(q3);
                    assert(t.contains_key(q3) && lv[q3] == 3);
                    if q3 == t3 {
                        assert(t[q2][i2 as int] == t[t2][level_index(va, 21) as int]);
                        assert(q2 == t2 && i2 == level_index(va, 21));
                        assert(t[q1][i1 as int] == t[t1][level_index(va, 30) as int]);
                        assert(q1 == t1 && i1 == level_index(va, 30));
                        assert(t[root][i0 as int] == t[root][level_index(va, 39) as int]);
                        assert(i0 == level_index(va, 39));
                    }
                }
            }
        }
        if same_path(a, va) {
            assert(t[root][i0 as int] == table_link(t1));
            assert(t[t1][i1 as int] == table_link(t2));
            assert(t[t2][i2 as int] == table_link(t3));
            assert(g(t3, i3) == Ok::<u64, PagingError>(raw));
        }
    }
}

/// The translation-table pages reserved for one address space; the first
/// is the root and the rest are handed out in order.
#[derive(Clone, Debug)]
pub struct TablePool {
    pages: Vec<u64>,
    used: usize,
}

impl TablePool {
    /// The reserved pages, in order.
    pub closed spec fn spec_pages(&self) -> Seq<u64> {
        self.pages@
    }

    /// Pages handed out so far, the root included.
    pub closed spec fn spec_used(&self) -> nat {
        self.used as nat
    }

    /// The pool invariant: a full set of distinct pages, some of them used.
    pub open spec fn wf(&self) -> bool {
        &&& self.spec_pages().len() == MAX_TABLE_PAGES
        &&& 1 <= self.spec_used() <= MAX_TABLE_PAGES
        &&& forall|i: int, j: int|
            0 <= i < j < MAX_TABLE_PAGES ==> #[trigger] self.spec_pages()[i] != #[trigger] self.spec_pages()[j]
    }

    /// Reserves the first `MAX_TABLE_PAGES` of `pages`, the first as the root.
    pub fn reserve(pages: &[u64]) -> (result: Result<TablePool, PagingError>)
        requires
            forall|i: int, j: int|
                0 <= i < j < pages@.len() && j < MAX_TABLE_PAGES ==> #[trigger] pages@[i]
                    != #[trigger] pages@[j],
        ensures
            pages@.len() < MAX_TABLE_PAGES ==> result == Err::<TablePool, PagingError>(
                PagingError::TableAllocationFailed,
            ),
            pages@.len() >= MAX_TABLE_PAGES ==> (result matches Ok(pool) && pool.wf()
                && pool.spec_pages() == pages@.take(MAX_TABLE_PAGES as int) && pool.spec_used() == 1),
    {
        if pages.len() < MAX_TABLE_PAGES {
            return Err(PagingError::TableAllocationFailed);
        }
        let mut reserved: Vec<u64> = Vec::new();
        let mut i: usize = 0;
        while i < MAX_TABLE_PAGES
            invariant
                i <= MAX_TABLE_PAGES <= pages@.len(),
                reserved@ == pages@.take(i as int),
            decreases MAX_TABLE_PAGES - i,
        {
            reserved.push(pages[i]);
            i += 1;
            assert(reserved@ =~= pages@.take(i as int));
        }
        Ok(TablePool { pages: reserved, used: 1 })
    }

    /// Whether `address` is one of the reserved pages.
    pub fn contains(&self, address: u64) -> (b: bool)
        ensures
            b == self.spec_pages().contains(address),
    {
        let mut i: usize = 0;
        while i < self.pages.len()
            invariant
                i <= self.pages@.len(),
                forall|j: int| 0 <= j < i ==> self.pages@[j] != address,
            decreases self.pages@.len() - i,
        {
            if self.pages[i] == address {
                assert(self.pages@[i as int] == address);
                return true;
            }
            i += 1;
        }
        false
    }

    /// Hands out the next unused page.
    fn take(&mut self) -> (result: Result<u64, PagingError>)
        requires
            old(self).wf(),
        ensures
            final(self).wf(),
            final(self).spec_pages() == old(self).spec_pages(),
            old(self).spec_used() == MAX_TABLE_PAGES ==> result == Err::<u64, PagingError>(
                PagingError::TableCapacityExceeded,
            ) && final(self).spec_used() == old(self).spec_used(),
            old(self).spec_used() < MAX_TABLE_PAGES ==> result == Ok::<u64, PagingError>(
                old(self).spec_pages()[old(self).spec_used() as int],
            ) && final(self).spec_used() == old(self).spec_used() + 1,
    {
        if self.used == MAX_TABLE_PAGES {
            return Err(PagingError::TableCapacityExceeded);
        }
        let page = self.pages[self.used];
        self.used = self.used + 1;
        Ok(page)
    }

    /// The root page.
    pub fn root(&self) -> (r: u64)
        requires
            self.wf(),
        ensures
            r == self.spec_pages()[0],
    {
        self.pages[0]
    }

    /// The page at `index` of the reservation.
    pub fn page(&self, index: usize) -> (r: u64)
        requires
            self.wf(),
            index < MAX_TABLE_PAGES,
        ensures
            r == self.spec_pages()[index as int],
    {
        self.pages[index]
    }
}

/// Every address of a page shares that page's walk and keeps its offset.
pub proof fn lemma_page_offset(page: u64, o: u64)
    requires
        page % PAGE_SIZE == 0,
        o < PAGE_SIZE,
    ensures
        page + o <= u64::MAX,
        same_path((page + o) as u64, page),
        ((page + o) as u64) & 0xfff == o,
{
    let a = (page + o) as u64;
    assert(page + o <= u64::MAX && a >> 39u64 & 0x1ff == page >> 39u64 & 0x1ff && a >> 30u64 & 0x1ff
        == page >> 30u64 & 0x1ff && a >> 21u64 & 0x1ff == page >> 21u64 & 0x1ff && a >> 12u64
        & 0x1ff == page >> 12u64 & 0x1ff && a & 0xfff == o) by (bit_vector)
        requires
            page % 4096 == 0,
            o < 4096,
            a == page + o,
    ;
}

/// The features `ID_AA64MMFR0_EL1` describes, or why it is refused.
pub open spec fn features_of(mmfr0: u64) -> Result<CpuFeatures, PagingError> {
    if (mmfr0 >> 28u64) & 0xf != 0 {
        Err(PagingError::FourKiBGranuleUnsupported)
    } else {
        match parange_bits(mmfr0 & 0xf) {
            Some(b) => Ok(CpuFeatures { physical_address_bits: b }),
            None => Err(PagingError::PhysicalAddressRangeUnsupported),
        }
    }
}

/// The first physical address beyond a `bits`-wide physical range.
pub open spec fn physical_limit_of(bits: u8) -> u64 {
    if bits == 32 {
        0x1_0000_0000
    } else if bits == 36 {
        0x10_0000_0000
    } else if bits == 40 {
        0x100_0000_0000
    } else if bits == 42 {
        0x400_0000_0000
    } else if bits == 44 {
        0x1000_0000_0000
    } else {
        0x1_0000_0000_0000
    }
}

/// A request covering the table page `page` maps it to itself as
/// writable, non-executable, write-back memory.
pub open spec fn alias_ok(r: MappingRequest, page: u64) -> bool {
    !(r.physical_start <= page && page < physical_end_of(r)) || (r.virtual_start + (page
        - r.physical_start) == page && r.permissions == Permissions::ReadWriteNoExecute
        && r.memory_type == MemoryType::NormalWriteBack)
}

/// Why the table page `page` cannot be used, if it cannot.
pub open spec fn pool_page_error(
    plan: Seq<MappingRequest>,
    limit: u64,
    mmu_on: bool,
    identity: bool,
    page: u64,
) -> Option<PagingError> {
    if page >= limit {
        Some(PagingError::PhysicalAddressOutOfRange)
    } else if mmu_on && !identity {
        Some(PagingError::TablePageNotIdentityAccessible)
    } else if exists|j: int| 0 <= j < plan.len() && !alias_ok(#[trigger] plan[j], page) {
        Some(PagingError::TablePageAliasConflict)
    } else {
        None
    }
}

/// The first unusable table page at or after `i`.
pub open spec fn first_pool_error(
    plan: Seq<MappingRequest>,
    limit: u64,
    mmu_on: bool,
    pages: Seq<u64>,
    identity: Seq<bool>,
    i: int,
) -> Option<PagingError>
    decreases MAX_TABLE_PAGES - i,
{
    if i >= MAX_TABLE_PAGES {
        None
    } else {
        match pool_page_error(plan, limit, mmu_on, identity[i], pages[i]) {
            Some(e) => Some(e),
            None => first_pool_error(plan, limit, mmu_on, pages, identity, i + 1),
        }
    }
}

/// Why building is refused before any table is written, if it is.
pub open spec fn build_precheck(
    plan: Seq<MappingRequest>,
    pages: Seq<u64>,
    mmfr0: u64,
    sctlr: u64,
    identity: Seq<bool>,
) -> Option<PagingError> {
    match features_of(mmfr0) {
        Err(e) => Some(e),
        Ok(f) => if sctlr & 0x200_0000 != 0 {
            Some(PagingError::BigEndianEl1Unsupported)
        } else if pages.len() < MAX_TABLE_PAGES {
            Some(PagingError::TableAllocationFailed)
        } else if exists|j: int|
            0 <= j < plan.len() && physical_end_of(#[trigger] plan[j]) > physical_limit_of(
                f.physical_address_bits,
            ) {
            Some(PagingError::PhysicalAddressOutOfRange)
        } else {
            first_pool_error(
                plan,
                physical_limit_of(f.physical_address_bits),
                sctlr & 1 != 0,
                pages,
                identity,
                0,
            )
        },
    }
}

proof fn lemma_first_pool_error_skip(
    plan: Seq<MappingRequest>,
    limit: u64,
    mmu_on: bool,
    pages: Seq<u64>,
    identity: Seq<bool>,
    k0: int,
    k: int,
)
    requires
        0 <= k0 <= k <= MAX_TABLE_PAGES,
        forall|j: int|
            k0 <= j < k ==> (#[trigger] pool_page_error(plan, limit, mmu_on, identity[j], pages[j])) is None,
    ensures
        first_pool_error(plan, limit, mmu_on, pages, identity, k0) == first_pool_error(
            plan,
            limit,
            mmu_on,
            pages,
            identity,
            k,
        ),
    decreases k - k0,
{
    if k0 < k {
        assert(pool_page_error(plan, limit, mmu_on, identity[k0], pages[k0]) is None);
        lemma_first_pool_error_skip(plan, limit, mmu_on, pages, identity, k0 + 1, k);
    }
}

/// The physical limit of a supported width.
fn physical_limit(bits: u8) -> (limit: u64)
    ensures
        limit == physical_limit_of(bits),
{
    if bits == 32 {
        0x1_0000_0000
    } else if bits == 36 {
        0x10_0000_0000
    } else if bits == 40 {
        0x100_0000_0000
    } else if bits == 42 {
        0x400_0000_0000
    } else if bits == 44 {
        0x1000_0000_0000
    } else {
        0x1_0000_0000_0000
    }
}

/// Checks one table page against the width, the live translation regime
/// and the plan.
fn check_pool_page(plan: &MappingPlan, limit: u64, mmu_on: bool, identity: bool, page: u64) -> (result:
    Option<PagingError>)
    requires
        plan.wf(),
    ensures
        result == pool_page_error(plan@, limit, mmu_on, identity, page),
{
    if page >= limit {
        return Some(PagingError::PhysicalAddressOutOfRange);
    }
    if mmu_on && !identity {
        return Some(PagingError::TablePageNotIdentityAccessible);
    }
    let requests = plan.as_slice();
    let mut j: usize = 0;
    while j < requests.len()
        invariant
            requests@ == plan@,
            plan.wf(),
            page < limit,
            !(mmu_on && !identity),
            j <= requests@.len(),
            forall|q: int| 0 <= q < j ==> alias_ok(#[trigger] plan@[q], page),
        decreases requests@.len() - j,
    {
        let request = requests[j];
        assert(request_error(plan@[j as int]).is_none());
        let end = match request.physical_end() {
            Ok(e) => e,
            Err(e) => return Some(e),
        };
        if request.physical_start <= page && page < end {
            let offset = page - request.physical_start;
            let alias = match request.virtual_start.checked_add(offset) {
                Some(a) => a,
                None => return Some(PagingError::AddressOverflow),
            };
            if alias != page || request.permissions != Permissions::ReadWriteNoExecute
                || request.memory_type != MemoryType::NormalWriteBack {
                assert(!alias_ok(plan@[j as int], page));
                assert(exists|q: int| 0 <= q < plan@.len() && !alias_ok(#[trigger] plan@[q], page));
                return Some(PagingError::TablePageAliasConflict);
            }
        }
        j += 1;
    }
    None
}

/// What writing `raw` over the leaf entry of `va` does to every walk, when
/// that entry was empty or already held `raw`.
pub proof fn lemma_leaf_write_effects(
    t: Map<u64, Seq<u64>>,
    lv: Map<u64, nat>,
    root: u64,
    pool: Seq<u64>,
    va: u64,
    t1: u64,
    t2: u64,
    t3: u64,
    raw: u64,
)
    requires
        tables_ok(t, lv, root, pool),
        t.contains_key(t1) && lv[t1] == 1,
        t.contains_key(t2) && lv[t2] == 2,
        t.contains_key(t3) && lv[t3] == 3,
        t[root][level_index(va, 39) as int] == table_link(t1),
        t[t1][level_index(va, 30) as int] == table_link(t2),
        t[t2][level_index(va, 21) as int] == table_link(t3),
        t[t3][level_index(va, 12) as int] == 0 || t[t3][level_index(va, 12) as int] == raw,
    ensures
        forall|a: u64|
            !same_path(a, va) ==> #[trigger] walk_spec(
                root,
                a,
                table_reader(t.insert(t3, t[t3].update(level_index(va, 12) as int, raw)), pool),
            ) == walk_spec(root, a, table_reader(t, pool)),
        forall|a: u64|
            same_path(a, va) && root < LOW_VA_LIMIT && root % PAGE_SIZE == 0 && a < LOW_VA_LIMIT
                ==> #[trigger] walk_spec(
                root,
                a,
                table_reader(t.insert(t3, t[t3].update(level_index(va, 12) as int, raw)), pool),
            ) == decode_result(raw, a & 0xfff),
        forall|a: u64|
            (#[trigger] walk_spec(root, a, table_reader(t, pool))) is Ok ==> walk_spec(
                root,
                a,
                table_reader(t.insert(t3, t[t3].update(level_index(va, 12) as int, raw)), pool),
            ) == walk_spec(root, a, table_reader(t, pool)),
{
    reveal(walk_spec);
    let tn = t.insert(t3, t[t3].update(level_index(va, 12) as int, raw));
    assert forall|a: u64|
        !same_path(a, va) implies #[trigger] walk_spec(root, a, table_reader(tn, pool)) == walk_spec(
            root,
            a,
            table_reader(t, pool),
        ) by {
        lemma_walk_after_leaf_write(t, lv, root, pool, va, t1, t2, t3, raw, a);
    }
    assert forall|a: u64|
        same_path(a, va) && root < LOW_VA_LIMIT && root % PAGE_SIZE == 0 && a < LOW_VA_LIMIT
            implies #[trigger] walk_spec(root, a, table_reader(tn, pool)) == decode_result(
            raw,
            a & 0xfff,
        ) by {
        lemma_walk_after_leaf_write(t, lv, root, pool, va, t1, t2, t3, raw, a);
    }
    assert forall|a: u64|
        (#[trigger] walk_spec(root, a, table_reader(t, pool))) is Ok implies walk_spec(
            root,
            a,
            table_reader(tn, pool),
        ) == walk_spec(root, a, table_reader(t, pool)) by {
        lemma_walk_after_leaf_write(t, lv, root, pool, va, t1, t2, t3, raw, a);
        lemma_descriptor_bits(a);
        if same_path(a, va) && root < LOW_VA_LIMIT && root % PAGE_SIZE == 0 && a < LOW_VA_LIMIT {
            assert(t[t3][level_index(va, 12) as int] != 0);
        } else if same_path(a, va) {
        }
    }
}

/// The root and the sizes, levels and pool membership of table pages.
pub proof fn lemma_tables_basic(t: Map<u64, Seq<u64>>, lv: Map<u64, nat>, root: u64, pool: Seq<u64>)
    requires
        tables_ok(t, lv, root, pool),
    ensures
        t.contains_key(root),
        lv[root] == 0,
        forall|p: u64|
            #[trigger] t.contains_key(p) ==> t[p].len() == TABLE_ENTRIES && lv[p] <= 3 && pool.contains(p),
{
    reveal(tables_ok);
}

/// The walk of `a` through tables `t` from `root` finds a table at every
/// level above the leaf: only its leaf entry can still be missing.
pub open spec fn upper_present(t: Map<u64, Seq<u64>>, root: u64, a: u64) -> bool {
    let r0 = entry_at(t, root, level_index(a, 39) as int);
    let r1 = entry_at(t, r0 & OUTPUT_ADDRESS_MASK, level_index(a, 30) as int);
    let r2 = entry_at(t, r1 & OUTPUT_ADDRESS_MASK, level_index(a, 21) as int);
    r0 != 0 && r1 != 0 && r2 != 0
}

/// Linking a zeroed new table into an empty entry above the leaf level
/// keeps every walk that met an empty entry meeting one.
proof fn lemma_link_keeps_empty(
    t: Map<u64, Seq<u64>>,
    lv: Map<u64, nat>,
    root: u64,
    pool: Seq<u64>,
    table: u64,
    index: int,
    c: u64,
    a: u64,
)
    requires
        tables_ok(t, lv, root, pool),
        t.contains_key(table),
        lv[table] < 3,
        0 <= index < TABLE_ENTRIES,
        t[table][index] == 0,
        !t.contains_key(c),
        table_descriptor_result(c) is Ok,
        walk_meets_empty_entry(t, root, a),
    ensures
        walk_meets_empty_entry(linked(t, table, index, c), root, a),
{
    reveal(tables_ok);
    lemma_descriptor_bits(a);
    lemma_link(c);
    let n = linked(t, table, index, c);
    let j0 = level_index(a, 39) as int;
    let j1 = level_index(a, 30) as int;
    let j2 = level_index(a, 21) as int;
    let j3 = level_index(a, 12) as int;
    assert(n[c] == Seq::new(TABLE_ENTRIES as nat, |i: int| 0u64));
    let e0 = entry_at(t, root, j0);
    if root == table && j0 == index {
        assert(entry_at(n, root, j0) == table_link(c));
        assert(entry_at(n, c, j1) == 0);
    } else {
        assert(entry_at(n, root, j0) == e0);
        if e0 != 0 {
            let p1 = e0 & OUTPUT_ADDRESS_MASK;
            assert(t[root][j0] == e0);
            assert(t.contains_key(p1) && lv[p1] == 1);
            let e1 = entry_at(t, p1, j1);
            if p1 == table && j1 == index {
                assert(entry_at(n, p1, j1) == table_link(c));
                assert(entry_at(n, c, j2) == 0);
            } else {
                assert(entry_at(n, p1, j1) == e1);
                if e1 != 0 {
                    let p2 = e1 & OUTPUT_ADDRESS_MASK;
                    assert(t[p1][j1] == e1);
                    assert(t.contains_key(p2) && lv[p2] == 2);
                    let e2 = entry_at(t, p2, j2);
                    if p2 == table && j2 == index {
                        assert(entry_at(n, p2, j2) == table_link(c));
                        assert(entry_at(n, c, j3) == 0);
                    } else {
                        assert(entry_at(n, p2, j2) == e2);
                        if e2 != 0 {
                            let p3 = e2 & OUTPUT_ADDRESS_MASK;
                            assert(t[p2][j2] == e2);
                            assert(t.contains_key(p3) && lv[p3] == 3);
                            assert(p3 != table && p3 != c);
                            assert(entry_at(n, p3, j3) == entry_at(t, p3, j3));
                        }
                    }
                }
            }
        }
    }
}

/// Writing the leaf entry of `va` keeps every walk of an address on another
/// path that met an empty entry meeting one.
proof fn lemma_leaf_write_keeps_empty(
    t: Map<u64, Seq<u64>>,
    lv: Map<u64, nat>,
    root: u64,
    pool: Seq<u64>,
    va: u64,
    t1: u64,
    t2: u64,
    t3: u64,
    raw: u64,
    a: u64,
)
    requires
        tables_ok(t, lv, root, pool),
        t.contains_key(t1),
        t.contains_key(t2),
        t.contains_key(t3),
        t[root][level_index(va, 39) as int] == table_link(t1),
        t[t1][level_index(va, 30) as int] == table_link(t2),
        t[t2][level_index(va, 21) as int] == table_link(t3),
        lv[t1] == 1,
        lv[t2] == 2,
        lv[t3] == 3,
        !same_path(a, va),
        walk_meets_empty_entry(t, root, a),
    ensures
        walk_meets_empty_entry(
            t.insert(t3, t[t3].update(level_index(va, 12) as int, raw)),
            root,
            a,
        ),
{
    reveal(tables_ok);
    lemma_descriptor_bits(a);
    lemma_descriptor_bits(va);
    let n = t.insert(t3, t[t3].update(level_index(va, 12) as int, raw));
    let j0 = level_index(a, 39) as int;
    let j1 = level_index(a, 30) as int;
    let j2 = level_index(a, 21) as int;
    let j3 = level_index(a, 12) as int;
    let i0 = level_index(va, 39) as int;
    let i1 = level_index(va, 30) as int;
    let i2 = level_index(va, 21) as int;
    let i3 = level_index(va, 12) as int;
    assert(lv[root] == 0);
    assert(root != t3);
    let e0 = entry_at(t, root, j0);
    assert(entry_at(n, root, j0) == e0);
    if e0 != 0 {
        let p1 = e0 & OUTPUT_ADDRESS_MASK;
        assert(t[root][j0] == e0);
        assert(t.contains_key(p1) && lv[p1] == 1);
        let e1 = entry_at(t, p1, j1);
        assert(entry_at(n, p1, j1) == e1);
        if e1 != 0 {
            let p2 = e1 & OUTPUT_ADDRESS_MASK;
            assert(t[p1][j1] == e1);
            assert(t.contains_key(p2) && lv[p2] == 2);
            let e2 = entry_at(t, p2, j2);
            assert(entry_at(n, p2, j2) == e2);
            if e2 != 0 {
                let p3 = e2 & OUTPUT_ADDRESS_MASK;
                assert(t[p2][j2] == e2);
                assert(t.contains_key(p3) && lv[p3] == 3);
                if p3 == t3 && j3 == i3 {
                    assert(e2 == table_link(t3));
                    assert(t[p2][j2] == t[t2][i2]);
                    assert(p2 == t2 && j2 == i2);
                    assert(e1 == table_link(t2));
                    assert(t[p1][j1] == t[t1][i1]);
                    assert(p1 == t1 && j1 == i1);
                    assert(e0 == table_link(t1));
                    assert(t[root][j0] == t[root][i0]);
                    assert(j0 == i0);
                    assert(false);
                }
                assert(entry_at(n, p3, j3) == entry_at(t, p3, j3));
            }
        }
    }
}

/// Rewriting a leaf-level entry keeps the table structure.
pub proof fn lemma_leaf_write_keeps_tables(
    t: Map<u64, Seq<u64>>,
    lv: Map<u64, nat>,
    root: u64,
    pool: Seq<u64>,
    t3: u64,
    i: int,
    raw: u64,
)
    requires
        tables_ok(t, lv, root, pool),
        t.contains_key(t3),
        lv[t3] == 3,
        0 <= i < TABLE_ENTRIES,
    ensures
        tables_ok(t.insert(t3, t[t3].update(i, raw)), lv, root, pool),
{
    reveal(tables_ok);
    let tn = t.insert(t3, t[t3].update(i, raw));
    assert forall|p: u64, j: int| #![trigger tn[p][j]] tn.contains_key(p) && lv[p] < 3 implies tn[p][j] == t[p][j] by {}
    assert forall|p: u64, k: int|
        #![trigger tn[p][k]]
        tn.contains_key(p) && lv[p] < 3 && 0 <= k < TABLE_ENTRIES && tn[p][k] != 0 implies tn[p][k]
            == table_link(tn[p][k] & OUTPUT_ADDRESS_MASK) && tn.contains_key(
            tn[p][k] & OUTPUT_ADDRESS_MASK,
        ) && lv[tn[p][k] & OUTPUT_ADDRESS_MASK] == lv[p] + 1 by {
        assert(tn[p][k] == t[p][k]);
    }
    assert forall|p1: u64, i1: int, p2: u64, i2: int|
        #![trigger tn[p1][i1], tn[p2][i2]]
        tn.contains_key(p1) && tn.contains_key(p2) && lv[p1] < 3 && lv[p2] < 3 && 0 <= i1
            < TABLE_ENTRIES && 0 <= i2 < TABLE_ENTRIES && tn[p1][i1] != 0 && tn[p1][i1]
            == tn[p2][i2] implies p1 == p2 && i1 == i2 by {
        assert(tn[p1][i1] == t[p1][i1]);
        assert(tn[p2][i2] == t[p2][i2]);
    }
}

/// Translation tables built from a reserved pool for one EL1 address space,
/// with the plan they were built from. The table pages are kept as their
/// entries, keyed by page address.
pub struct ActiveAddressSpace {
    root: u64,
    pool: TablePool,
    plan: MappingPlan,
    features: CpuFeatures,
    active: bool,
    tables: HashMap<u64, Vec<u64>>,
    levels: Ghost<Map<u64, nat>>,
}

impl ActiveAddressSpace {
    /// The table pages and their entries.
    pub closed spec fn table_pages(&self) -> Map<u64, Seq<u64>> {
        self.tables@.map_values(|v: Vec<u64>| v@)
    }

    /// The root table's physical address.
    pub closed spec fn spec_root(&self) -> u64 {
        self.root
    }

    /// The table-page pool.
    pub closed spec fn spec_pool(&self) -> TablePool {
        self.pool
    }

    /// The plan the tables were built from.
    pub closed spec fn spec_plan(&self) -> MappingPlan {
        self.plan
    }

    /// The requests of the plan the tables were built from.
    pub closed spec fn plan_requests(&self) -> Seq<MappingRequest> {
        self.plan@
    }

    /// The CPU features the tables were built for.
    pub closed spec fn spec_features(&self) -> CpuFeatures {
        self.features
    }

    /// Whether the space has been activated.
    pub closed spec fn spec_active(&self) -> bool {
        self.active
    }

    /// How the walker reads these tables.
    pub open spec fn reader(&self) -> spec_fn(u64, usize) -> Result<u64, PagingError> {
        table_reader(self.table_pages(), self.spec_pool().spec_pages())
    }

    /// What a walk of these tables gives for `address`.
    #[verifier::opaque]
    pub open spec fn translate_spec(&self, address: u64) -> Result<Translation, PagingError> {
        walk_spec(self.spec_root(), address, self.reader())
    }

    /// Every address of the page at `va` translates to the same offset in
    /// the page at `pa`, with `p` and `t`.
    pub open spec fn maps_page(&self, va: u64, pa: u64, p: Permissions, t: MemoryType) -> bool {
        forall|o: u64|
            o < PAGE_SIZE ==> #[trigger] self.translate_spec((va + o) as u64) == Ok::<
                Translation,
                PagingError,
            >(Translation { physical_address: (pa + o) as u64, permissions: p, memory_type: t })
    }

    /// The tables form levels under the pool's first page; every table page
    /// has been handed out by the pool.
    pub closed spec fn wf(&self) -> bool {
        let t = self.table_pages();
        &&& self.pool.wf()
        &&& self.root == self.pool.spec_pages()[0]
        &&& tables_ok(t, self.levels@, self.root, self.pool.spec_pages())
        &&& forall|p: u64|
            #[trigger] t.contains_key(p) ==> self.pool.spec_pages().take(
                self.pool.spec_used() as int,
            ).contains(p)
        &&& self.plan.wf()
    }

    /// Root table physical address.
    pub fn root_address(&self) -> (r: u64)
        ensures
            r == self.spec_root(),
    {
        self.root
    }

    /// Number of translation-table pages actually linked.
    pub fn used_table_pages(&self) -> (n: usize)
        ensures
            n == self.spec_pool().spec_used(),
    {
        self.pool.used
    }

    /// The `index`th table page in use, if there is one.
    pub fn table_page(&self, index: usize) -> (page: Option<u64>)
        ensures
            page == (if index < self.spec_pool().spec_used() && index < self.spec_pool().spec_pages().len() {
                Some(self.spec_pool().spec_pages()[index as int])
            } else {
                None::<u64>
            }),
    {
        if index < self.pool.used && index < self.pool.pages.len() {
            Some(self.pool.pages[index])
        } else {
            None
        }
    }

    /// Reads entry `index` of `table` the way the walker does.
    fn read_table_entry(&self, table: u64, index: usize) -> (result: Result<u64, PagingError>)
        ensures
            result == (self.reader())(table, index),
    {
        if !self.pool.contains(table) || index >= TABLE_ENTRIES {
            return Err(PagingError::InvalidDescriptor);
        }
        Ok(self.read_entry(table, index))
    }

    /// Walks the tables without changing them.
    pub fn translate(&self, virtual_address: u64) -> (result: Result<Translation, PagingError>)
        ensures
            result == self.translate_spec(virtual_address),
    {
        let read = |table: u64, index: usize| -> (r: Result<u64, PagingError>)
            ensures
                r == (self.reader())(table, index),
            { self.read_table_entry(table, index) };
        proof {
            reveal(ActiveAddressSpace::translate_spec);
        }
        walk_with(self.root, virtual_address, read)
    }

    /// The next `n` pool pages are still free and a table descriptor can
    /// name each of them.
    pub closed spec fn fresh_tables(&self, n: int) -> bool {
        &&& self.pool.spec_used() + n <= MAX_TABLE_PAGES
        &&& forall|k: int|
            self.pool.spec_used() <= k < self.pool.spec_used() + n
                ==> #[trigger] table_descriptor_result(self.pool.spec_pages()[k]) is Ok
    }

    /// Follows entry `index` of `table` one level down, first linking the
    /// next pool page as a zeroed table when the entry is empty.
    fn next_level(&mut self, table: u64, index: usize, level: Ghost<nat>) -> (result: Result<
        u64,
        PagingError,
    >)
        requires
            old(self).wf(),
            old(self).table_pages().contains_key(table),
            old(self).levels@[table] == level@,
            level@ < 3,
            index < TABLE_ENTRIES,
        ensures
            final(self).wf(),
            final(self).root == old(self).root,
            final(self).pool.spec_pages() == old(self).pool.spec_pages(),
            final(self).plan == old(self).plan,
            final(self).features == old(self).features,
            final(self).active == old(self).active,
            forall|p: u64|
                #[trigger] old(self).table_pages().contains_key(p) ==> final(self).table_pages().contains_key(p) && final(self).levels@[p] == old(self).levels@[p],
            forall|p: u64|
                #[trigger] old(self).table_pages().contains_key(p) && p != table ==> final(self).table_pages()[p] == old(self).table_pages()[p],
            forall|j: int|
                0 <= j < TABLE_ENTRIES && j != index ==> #[trigger] final(self).table_pages()[table][j] == old(self).table_pages()[table][j],
            forall|a: u64| #[trigger] final(self).translate_spec(a) == old(self).translate_spec(a),
            result matches Ok(next) ==> {
                &&& final(self).table_pages().contains_key(next)
                &&& final(self).levels@[next] == level@ + 1
                &&& final(self).table_pages()[table][index as int] == table_link(next)
            },
            old(self).table_pages()[table][index as int] != 0 ==> result == Ok::<u64, PagingError>(
                old(self).table_pages()[table][index as int] & OUTPUT_ADDRESS_MASK,
            ) && final(self).table_pages() == old(self).table_pages() && final(self).pool.spec_used()
                == old(self).pool.spec_used(),
            old(self).table_pages()[table][index as int] == 0 && result is Ok ==> final(self).table_pages()[result->Ok_0]
                == Seq::new(TABLE_ENTRIES as nat, |i: int| 0u64) && final(self).pool.spec_used()
                == old(self).pool.spec_used() + 1,
            old(self).table_pages()[table][index as int] == 0 && old(self).fresh_tables(1) ==> result
                == Ok::<u64, PagingError>(old(self).pool.spec_pages()[old(self).pool.spec_used() as int]),
            forall|n: int|
                1 <= n && #[trigger] old(self).fresh_tables(n) ==> final(self).fresh_tables(n - 1),
            forall|a: u64|
                walk_meets_empty_entry(old(self).table_pages(), old(self).root, a)
                    ==> #[trigger] walk_meets_empty_entry(final(self).table_pages(), final(self).root, a),
    {
        proof {
            reveal(ActiveAddressSpace::translate_spec);
            reveal(tables_ok);
        }
        let ghost t = self.table_pages();
        let ghost lv = self.levels@;
        let ghost pool = self.pool.spec_pages();
        let raw = self.read_entry(table, index);
        proof {
            assert(t[table][index as int] == raw);
            if raw != 0 {
                lemma_link(raw & OUTPUT_ADDRESS_MASK);
            }
        }
        if raw & 1 == 0 {
            let child = match self.pool.take() {
                Ok(c) => c,
                Err(e) => return Err(e),
            };
            proof {
                assert(raw == 0);
                assert(pool.take(old(self).pool.spec_used() as int + 1).contains(child)) by {
                    assert(pool.take(old(self).pool.spec_used() as int + 1)[old(self).pool.spec_used() as int] == child);
                }
                if t.contains_key(child) {
                    let k = choose|k: int|
                        0 <= k < old(self).pool.spec_used() && pool.take(old(self).pool.spec_used() as int)[k] == child;
                    assert(pool[k] == pool[old(self).pool.spec_used() as int]);
                    assert(false);
                }
                assert(pool.contains(child)) by {
                    assert(pool[old(self).pool.spec_used() as int] == child);
                }
            }
            let link = match table_descriptor(child) {
                Ok(d) => d,
                Err(e) => {
                    proof {
                        assert forall|p: u64| #[trigger] self.table_pages().contains_key(p) implies self.pool.spec_pages().take(
                            self.pool.spec_used() as int,
                        ).contains(p) by {
                            let k = choose|k: int|
                                0 <= k < old(self).pool.spec_used() && pool.take(old(self).pool.spec_used() as int)[k] == p;
                            assert(self.pool.spec_pages().take(self.pool.spec_used() as int)[k] == p);
                        }
                    }
                    return Err(e);
                },
            };
            proof {
                lemma_link(child);
            }
            self.insert_table(child, Ghost((level@ + 1) as nat));
            self.write_entry(table, index, link);
            proof {
                let t2 = self.table_pages();
                let lv2 = self.levels@;
                assert(t2 =~= linked(t, table, index as int, child));
                assert(lv2 == lv.insert(child, (level@ + 1) as nat));
                assert(table != child);
                assert forall|p: u64, i: int|
                    #![trigger t2[p][i]]
                    t2.contains_key(p) && lv2[p] < 3 && 0 <= i < TABLE_ENTRIES && t2[p][i] != 0 implies t2[p][i]
                        == table_link(t2[p][i] & OUTPUT_ADDRESS_MASK) && t2.contains_key(
                        t2[p][i] & OUTPUT_ADDRESS_MASK,
                    ) && lv2[t2[p][i] & OUTPUT_ADDRESS_MASK] == lv2[p] + 1 by {
                    if p == child {
                        assert(t2[p][i] == 0u64);
                    } else if p == table && i == index {
                        assert(t2[p][i] == link);
                    } else {
                        assert(t2[p][i] == t[p][i]);
                        assert(t.contains_key(p));
                        let q = t[p][i] & OUTPUT_ADDRESS_MASK;
                        assert(t.contains_key(q));
                        assert(q != child);
                    }
                }
                assert forall|p1: u64, i1: int, p2: u64, i2: int|
                    #![trigger t2[p1][i1], t2[p2][i2]]
                    t2.contains_key(p1) && t2.contains_key(p2) && lv2[p1] < 3 && lv2[p2] < 3 && 0 <= i1
                        < TABLE_ENTRIES && 0 <= i2 < TABLE_ENTRIES && t2[p1][i1] != 0 && t2[p1][i1]
                        == t2[p2][i2] implies p1 == p2 && i1 == i2 by {
                    if p1 == child {
                        assert(t2[p1][i1] == 0u64);
                    } else if p2 == child {
                        assert(t2[p2][i2] == 0u64);
                    } else {
                        let new1 = p1 == table && i1 == index;
                        let new2 = p2 == table && i2 == index;
                        if new1 && !new2 {
                            assert(t2[p2][i2] == t[p2][i2]);
                            assert(t.contains_key(t[p2][i2] & OUTPUT_ADDRESS_MASK));
                        } else if new2 && !new1 {
                            assert(t2[p1][i1] == t[p1][i1]);
                            assert(t.contains_key(t[p1][i1] & OUTPUT_ADDRESS_MASK));
                        } else if !new1 && !new2 {
                            assert(t2[p1][i1] == t[p1][i1]);
                            assert(t2[p2][i2] == t[p2][i2]);
                        }
                    }
                }
                assert forall|p: u64| #[trigger] t2.contains_key(p) implies self.pool.spec_pages().take(
                    self.pool.spec_used() as int,
                ).contains(p) by {
                    if p == child {
                        assert(self.pool.spec_pages().take(self.pool.spec_used() as int)[old(self).pool.spec_used() as int] == p);
                    } else {
                        let k = choose|k: int|
                            0 <= k < old(self).pool.spec_used() && pool.take(old(self).pool.spec_used() as int)[k] == p;
                        assert(self.pool.spec_pages().take(self.pool.spec_used() as int)[k] == p);
                    }
                }
                assert forall|p: u64| #[trigger] t2.contains_key(p) implies t2[p].len() == TABLE_ENTRIES
                    && lv2[p] <= 3 && pool.contains(p) && (lv2[p] >= 1 ==> table_descriptor_result(p) is Ok) by {
                    if p != child {
                        assert(t.contains_key(p));
                    }
                }
                assert forall|a: u64| #[trigger] self.translate_spec(a) == old(self).translate_spec(a) by {
                    reveal(ActiveAddressSpace::translate_spec);
                    lemma_walk_after_link(t, lv, self.root, pool, table, index as int, child, a);
                }
                assert forall|a: u64|
                    walk_meets_empty_entry(t, self.root, a) implies #[trigger] walk_meets_empty_entry(
                    t2,
                    self.root,
                    a,
                ) by {
                    lemma_link_keeps_empty(t, lv, self.root, pool, table, index as int, child, a);
                }
            }
            return Ok(child);
        }
        proof {
            lemma_descriptor_bits(0);
            assert(raw != 0);
        }
        if raw & 3 == 3 {
            let child = raw & OUTPUT_ADDRESS_MASK;
            if !self.pool.contains(child) {
                return Err(PagingError::InvalidDescriptor);
            }
            return Ok(child);
        }
        Err(PagingError::InvalidDescriptor)
    }

    /// Maps the page at `virtual_address` to `physical_address`, creating
    /// missing tables from the pool; a different leaf already there is refused.
    #[verifier::rlimit(60)]
    #[verifier::spinoff_prover]
    fn map_one(
        &mut self,
        virtual_address: u64,
        physical_address: u64,
        permissions: Permissions,
        memory_type: MemoryType,
    ) -> (result: Result<(), PagingError>)
        requires
            old(self).wf(),
        ensures
            final(self).wf(),
            final(self).root == old(self).root,
            final(self).pool.spec_pages() == old(self).pool.spec_pages(),
            final(self).plan == old(self).plan,
            final(self).features == old(self).features,
            final(self).active == old(self).active,
            result is Ok ==> page_descriptor_result(physical_address, permissions, memory_type) is Ok,
            result is Err ==> forall|a: u64| #[trigger] final(self).translate_spec(a) == old(self).translate_spec(a),
            forall|a: u64|
                !same_path(a, virtual_address) ==> #[trigger] final(self).translate_spec(a) == old(self).translate_spec(a),
            forall|a: u64|
                (#[trigger] old(self).translate_spec(a)) is Ok ==> final(self).translate_spec(a) == old(self).translate_spec(a),
            result is Ok ==> forall|a: u64|
                same_path(a, virtual_address) && a < LOW_VA_LIMIT && old(self).spec_root() < LOW_VA_LIMIT
                    && old(self).spec_root() % PAGE_SIZE == 0 ==> #[trigger] final(self).translate_spec(a)
                    == decode_result(page_raw(physical_address, permissions, memory_type), a & 0xfff),
            walk_meets_empty_entry(old(self).table_pages(), old(self).root, virtual_address)
                && old(self).fresh_tables(3) && page_descriptor_result(
                physical_address,
                permissions,
                memory_type,
            ) is Ok ==> result is Ok,
            result is Ok ==> forall|n: int|
                3 <= n && #[trigger] old(self).fresh_tables(n) ==> final(self).fresh_tables(n - 3),
            result is Ok ==> forall|a: u64|
                same_upper_path(a, virtual_address) && level_index(a, 12) != level_index(virtual_address, 12)
                    && walk_meets_empty_entry(old(self).table_pages(), old(self).root, a)
                    ==> #[trigger] walk_meets_empty_entry(final(self).table_pages(), final(self).root, a),
            result is Ok ==> forall|a: u64|
                !same_path(a, virtual_address) && walk_meets_empty_entry(old(self).table_pages(), old(self).root, a)
                    ==> #[trigger] walk_meets_empty_entry(final(self).table_pages(), final(self).root, a),
            upper_present(old(self).table_pages(), old(self).root, virtual_address)
                && walk_meets_empty_entry(old(self).table_pages(), old(self).root, virtual_address)
                && page_descriptor_result(physical_address, permissions, memory_type) is Ok ==> result is Ok,
            upper_present(old(self).table_pages(), old(self).root, virtual_address) ==> forall|n: int|
                #[trigger] old(self).fresh_tables(n) ==> final(self).fresh_tables(n),
            result is Ok ==> upper_present(final(self).table_pages(), final(self).root, virtual_address),
    {
        let root = self.root;
        let i0 = ((virtual_address >> 39u64) & 0x1ff) as usize;
        let i1 = ((virtual_address >> 30u64) & 0x1ff) as usize;
        let i2 = ((virtual_address >> 21u64) & 0x1ff) as usize;
        let i3 = ((virtual_address >> 12u64) & 0x1ff) as usize;
        proof {
            lemma_descriptor_bits(virtual_address);
        }
        let ghost s0 = self.table_pages();
        proof {
            lemma_tables_basic(s0, self.levels@, root, self.pool.spec_pages());
        }
        let ghost a0 = *self;
        let t1 = match self.next_level(root, i0, Ghost(0)) {
            Ok(t) => t,
            Err(e) => return Err(e),
        };
        let ghost s1 = self.table_pages();
        let ghost a1 = *self;
        let t2 = match self.next_level(t1, i1, Ghost(1)) {
            Ok(t) => t,
            Err(e) => return Err(e),
        };
        let ghost s2 = self.table_pages();
        let ghost a2 = *self;
        let t3 = match self.next_level(t2, i2, Ghost(2)) {
            Ok(t) => t,
            Err(e) => return Err(e),
        };
        let ghost s3 = self.table_pages();
        let ghost mid = *self;
        proof {
            if upper_present(s0, root, virtual_address) {
                assert(s1 == s0 && s2 == s1 && s3 == s2);
                assert forall|n: int| #[trigger] a0.fresh_tables(n) implies mid.fresh_tables(n) by {}
            }
            lemma_tables_basic(s3, self.levels@, root, self.pool.spec_pages());
            assert forall|n: int| 3 <= n && #[trigger] a0.fresh_tables(n) implies mid.fresh_tables(n - 3) by {
                assert(a1.fresh_tables(n - 1));
                assert(a2.fresh_tables(n - 2));
            }
            if walk_meets_empty_entry(s0, root, virtual_address) {
                let r0 = entry_at(s0, root, i0 as int);
                let e1 = entry_at(s1, t1, i1 as int);
                let e2 = entry_at(s2, t2, i2 as int);
                assert(s0.contains_key(root));
                assert(s1.contains_key(t1));
                assert(s2.contains_key(t2));
                assert(s3.contains_key(t3));
                if r0 == 0 {
                    assert(s1[t1] == Seq::new(TABLE_ENTRIES as nat, |i: int| 0u64));
                    assert(e1 == 0);
                    assert(e2 == 0);
                } else {
                    assert(s1 == s0);
                    assert(t1 == r0 & OUTPUT_ADDRESS_MASK);
                    if e1 == 0 {
                        assert(e2 == 0);
                    } else {
                        assert(s2 == s1);
                        assert(t2 == e1 & OUTPUT_ADDRESS_MASK);
                        if e2 != 0 {
                            assert(s3 == s2);
                            assert(t3 == e2 & OUTPUT_ADDRESS_MASK);
                        }
                    }
                }
                assert(entry_at(s3, t3, i3 as int) == 0);
            }
        }
        let old_raw = self.read_entry(t3, i3);
        let new = match page_descriptor(physical_address, permissions, memory_type) {
            Ok(d) => d,
            Err(e) => return Err(e),
        };
        if old_raw != 0 && old_raw != new {
            return Err(PagingError::VirtualMappingConflict);
        }
        self.write_entry(t3, i3, new);
        proof {
            assert(root != t1 && root != t2 && root != t3 && t1 != t2 && t1 != t3 && t2 != t3);
            assert(s3[root][i0 as int] == table_link(t1));
            assert(s3[t1][i1 as int] == table_link(t2));
            assert(s3[t2][i2 as int] == table_link(t3));
            lemma_leaf_write_effects(s3, self.levels@, root, self.pool.spec_pages(), virtual_address, t1, t2, t3, new);
            lemma_leaf_write_keeps_tables(s3, self.levels@, root, self.pool.spec_pages(), t3, i3 as int, new);
            assert(self.table_pages() == s3.insert(t3, s3[t3].update(i3 as int, new)));
            reveal(ActiveAddressSpace::translate_spec);
            assert forall|a: u64| (#[trigger] old(self).translate_spec(a)) is Ok implies self.translate_spec(a)
                == old(self).translate_spec(a) by {
                assert(old(self).translate_spec(a) == mid.translate_spec(a));
            }
            assert forall|a: u64| !same_path(a, virtual_address) implies #[trigger] self.translate_spec(a)
                == old(self).translate_spec(a) by {
                assert(old(self).translate_spec(a) == mid.translate_spec(a));
                assert(self.translate_spec(a) == mid.translate_spec(a));
            }
            let tf = self.table_pages();
            assert forall|a: u64|
                !same_path(a, virtual_address) && walk_meets_empty_entry(s0, root, a) implies #[trigger] walk_meets_empty_entry(
                tf,
                root,
                a,
            ) by {
                assert(walk_meets_empty_entry(s1, root, a));
                assert(walk_meets_empty_entry(s2, root, a));
                assert(walk_meets_empty_entry(s3, root, a));
                lemma_leaf_write_keeps_empty(
                    s3,
                    self.levels@,
                    root,
                    self.pool.spec_pages(),
                    virtual_address,
                    t1,
                    t2,
                    t3,
                    new,
                    a,
                );
            }
            assert(upper_present(tf, root, virtual_address)) by {
                lemma_tables_basic(s3, self.levels@, root, self.pool.spec_pages());
                reveal(tables_ok);
                lemma_link(t1);
                lemma_link(t2);
                lemma_link(t3);
                assert(tf[root] == s3[root] && tf[t1] == s3[t1] && tf[t2] == s3[t2]);
                assert(entry_at(tf, root, i0 as int) == table_link(t1));
                assert(entry_at(tf, t1, i1 as int) == table_link(t2));
                assert(entry_at(tf, t2, i2 as int) == table_link(t3));
            }
            assert forall|a: u64|
                same_upper_path(a, virtual_address) && level_index(a, 12) != level_index(virtual_address, 12)
                    && walk_meets_empty_entry(s0, root, a) implies #[trigger] walk_meets_empty_entry(
                tf,
                root,
                a,
            ) by {
                lemma_descriptor_bits(a);
                lemma_tables_basic(s3, self.levels@, root, self.pool.spec_pages());
                reveal(tables_ok);
                lemma_link(t1);
                lemma_link(t2);
                lemma_link(t3);
                let j3 = level_index(a, 12) as int;
                assert(tf[root] == s3[root] && tf[t1] == s3[t1] && tf[t2] == s3[t2]);
                assert(entry_at(tf, root, i0 as int) == table_link(t1));
                assert(entry_at(tf, t1, i1 as int) == table_link(t2));
                assert(entry_at(tf, t2, i2 as int) == table_link(t3));
                assert(tf[t3][j3] == s3[t3][j3]);
                let r0 = entry_at(s0, root, i0 as int);
                if r0 == 0 {
                    assert(s1[t1] == Seq::new(TABLE_ENTRIES as nat, |i: int| 0u64));
                    assert(entry_at(s1, t1, i1 as int) == 0);
                    assert(s2[t2] == Seq::new(TABLE_ENTRIES as nat, |i: int| 0u64));
                    assert(entry_at(s2, t2, i2 as int) == 0);
                    assert(s3[t3] == Seq::new(TABLE_ENTRIES as nat, |i: int| 0u64));
                } else {
                    assert(s1 == s0);
                    let r1 = entry_at(s1, t1, i1 as int);
                    if r1 == 0 {
                        assert(s2[t2] == Seq::new(TABLE_ENTRIES as nat, |i: int| 0u64));
                        assert(entry_at(s2, t2, i2 as int) == 0);
                        assert(s3[t3] == Seq::new(TABLE_ENTRIES as nat, |i: int| 0u64));
                    } else {
                        assert(s2 == s1);
                        let r2 = entry_at(s2, t2, i2 as int);
                        if r2 == 0 {
                            assert(s3[t3] == Seq::new(TABLE_ENTRIES as nat, |i: int| 0u64));
                        } else {
                            assert(s3 == s2);
                            assert(entry_at(s0, t3, j3) == 0);
                        }
                    }
                }
                assert(tf[t3][j3] == 0);
            }
        }
        Ok(())
    }

    /// The entries of table page `table`, in index order, when it holds a
    /// table: what has to be written to that physical page before the tables
    /// are used.
    pub fn table_entries(&self, table: u64) -> (entries: Option<Vec<u64>>)
        ensures
            entries matches Some(v) ==> self.table_pages().contains_key(table) && v@
                == self.table_pages()[table],
            entries is None ==> !self.table_pages().contains_key(table),
    {
        broadcast use vstd::std_specs::hash::group_hash_axioms;

        match self.tables.get(&table) {
            Some(stored) => {
                let mut copy: Vec<u64> = Vec::new();
                let mut index: usize = 0;
                while index < stored.len()
                    invariant
                        index <= stored@.len(),
                        copy@ == stored@.take(index as int),
                    decreases stored@.len() - index,
                {
                    copy.push(stored[index]);
                    index += 1;
                    assert(copy@ =~= stored@.take(index as int));
                }
                assert(copy@ =~= stored@);
                Some(copy)
            },
            None => None,
        }
    }

    /// The raw entry `index` of table page `table` (zero for a page holding no table).
    fn read_entry(&self, table: u64, index: usize) -> (raw: u64)
        ensures
            raw == entry_at(self.table_pages(), table, index as int),
    {
        broadcast use vstd::std_specs::hash::group_hash_axioms;

        match self.tables.get(&table) {
            Some(entries) => {
                if index < entries.len() {
                    entries[index]
                } else {
                    0
                }
            },
            None => 0,
        }
    }

    /// Stores `raw` as entry `index` of the existing table page `table`.
    fn write_entry(&mut self, table: u64, index: usize, raw: u64)
        requires
            old(self).table_pages().contains_key(table),
            index < old(self).table_pages()[table].len(),
        ensures
            final(self).table_pages() == old(self).table_pages().insert(
                table,
                old(self).table_pages()[table].update(index as int, raw),
            ),
            final(self).levels@ == old(self).levels@,
            final(self).root == old(self).root,
            final(self).pool == old(self).pool,
            final(self).plan == old(self).plan,
            final(self).features == old(self).features,
            final(self).active == old(self).active,
    {
        broadcast use vstd::std_specs::hash::group_hash_axioms;

        let removed = self.tables.remove(&table);
        match removed {
            Some(mut entries) => {
                entries.set(index, raw);
                self.tables.insert(table, entries);
            },
            None => {},
        }
        assert(self.table_pages() =~= old(self).table_pages().insert(
            table,
            old(self).table_pages()[table].update(index as int, raw),
        ));
    }

    /// Adds the zeroed table page `page` at `level`.
    fn insert_table(&mut self, page: u64, level: Ghost<nat>)
        requires
            !old(self).table_pages().contains_key(page),
        ensures
            final(self).table_pages() == old(self).table_pages().insert(
                page,
                Seq::new(TABLE_ENTRIES as nat, |i: int| 0u64),
            ),
            final(self).levels@ == old(self).levels@.insert(page, level@),
            final(self).root == old(self).root,
            final(self).pool == old(self).pool,
            final(self).plan == old(self).plan,
            final(self).features == old(self).features,
            final(self).active == old(self).active,
    {
        broadcast use vstd::std_specs::hash::group_hash_axioms;

        let mut entries: Vec<u64> = Vec::new();
        while entries.len() < TABLE_ENTRIES
            invariant
                entries.len() <= TABLE_ENTRIES,
                forall|i: int| 0 <= i < entries.len() ==> #[trigger] entries@[i] == 0u64,
            decreases TABLE_ENTRIES - entries.len(),
        {
            entries.push(0);
        }
        assert(entries@ =~= Seq::new(TABLE_ENTRIES as nat, |i: int| 0u64));
        self.tables.insert(page, entries);
        self.levels = Ghost(self.levels@.insert(page, level@));
        assert(self.table_pages() =~= old(self).table_pages().insert(
            page,
            Seq::new(TABLE_ENTRIES as nat, |i: int| 0u64),
        ));
    }
}

/// A mapped page stays mapped across changes that keep every successful walk.
proof fn lemma_maps_page_kept(
    before: ActiveAddressSpace,
    after: ActiveAddressSpace,
    va: u64,
    pa: u64,
    p: Permissions,
    t: MemoryType,
)
    requires
        before.maps_page(va, pa, p, t),
        forall|a: u64|
            (#[trigger] before.translate_spec(a)) is Ok ==> after.translate_spec(a)
                == before.translate_spec(a),
    ensures
        after.maps_page(va, pa, p, t),
{
    assert forall|o: u64| o < PAGE_SIZE implies #[trigger] after.translate_spec((va + o) as u64) == Ok::<
        Translation,
        PagingError,
    >(Translation { physical_address: (pa + o) as u64, permissions: p, memory_type: t }) by {
        assert(before.translate_spec((va + o) as u64) is Ok);
    }
}

impl ActiveAddressSpace {
    /// Maps the page at `va` to `pa` with `p` and `t`, creating missing
    /// tables from the pool; a different leaf already there is refused.
    pub fn map_page(&mut self, va: u64, pa: u64, p: Permissions, t: MemoryType) -> (result: Result<
        (),
        PagingError,
    >)
        requires
            old(self).wf(),
        ensures
            final(self).wf(),
            final(self).spec_root() == old(self).spec_root(),
            final(self).spec_pool().spec_pages() == old(self).spec_pool().spec_pages(),
            forall|a: u64|
                (#[trigger] old(self).translate_spec(a)) is Ok ==> final(self).translate_spec(a)
                    == old(self).translate_spec(a),
            forall|a: u64|
                !same_path(a, va) ==> #[trigger] final(self).translate_spec(a) == old(self).translate_spec(a),
            result is Err ==> forall|a: u64| #[trigger] final(self).translate_spec(a) == old(self).translate_spec(a),
            result is Ok && old(self).spec_root() < LOW_VA_LIMIT && old(self).spec_root() % PAGE_SIZE
                == 0 && va % PAGE_SIZE == 0 && va < LOW_VA_LIMIT ==> final(self).maps_page(va, pa, p, t),
            result is Ok ==> page_descriptor_result(pa, p, t) is Ok,
            walk_meets_empty_entry(old(self).table_pages(), old(self).spec_root(), va) && old(
                self,
            ).fresh_tables(3) && page_descriptor_result(pa, p, t) is Ok ==> result is Ok,
            result is Ok ==> forall|n: int|
                3 <= n && #[trigger] old(self).fresh_tables(n) ==> final(self).fresh_tables(n - 3),
            result is Ok ==> forall|a: u64|
                same_upper_path(a, va) && level_index(a, 12) != level_index(va, 12)
                    && walk_meets_empty_entry(old(self).table_pages(), old(self).spec_root(), a)
                    ==> #[trigger] walk_meets_empty_entry(final(self).table_pages(), final(self).spec_root(), a),
    {
        self.map_page_checked(va, pa, p, t)
    }

    /// Clears the leaf that maps the page at `virtual_address`; a page
    /// without a valid page descriptor is refused as not mapped.
    pub fn unmap_page(&mut self, virtual_address: u64) -> (result: Result<(), PagingError>)
        requires
            old(self).wf(),
        ensures
            final(self).wf(),
            final(self).spec_root() == old(self).spec_root(),
            final(self).spec_pool() == old(self).spec_pool(),
            result is Err ==> *final(self) == *old(self),
            forall|a: u64|
                !same_path(a, virtual_address) ==> #[trigger] final(self).translate_spec(a)
                    == old(self).translate_spec(a),
            result is Ok ==> forall|a: u64|
                same_path(a, virtual_address) && a < LOW_VA_LIMIT && old(self).spec_root() < LOW_VA_LIMIT
                    && old(self).spec_root() % PAGE_SIZE == 0 ==> #[trigger] final(self).translate_spec(a)
                    == Err::<Translation, PagingError>(PagingError::NotMapped),
            old(self).translate_spec(virtual_address) is Ok ==> result is Ok,
            result == (if leaf_present(old(self).table_pages(), old(self).spec_root(), virtual_address) {
                Ok::<(), PagingError>(())
            } else {
                Err::<(), PagingError>(PagingError::NotMapped)
            }),
            forall|a: u64|
                same_upper_path(a, virtual_address) && level_index(a, 12) != level_index(virtual_address, 12)
                    ==> #[trigger] leaf_present(final(self).table_pages(), final(self).spec_root(), a)
                    == leaf_present(old(self).table_pages(), old(self).spec_root(), a),
    {
        proof {
            reveal(ActiveAddressSpace::translate_spec);
            reveal(walk_spec);
            reveal(tables_ok);
            lemma_descriptor_bits(virtual_address);
        }
        let ghost s0 = self.table_pages();
        let ghost lv = self.levels@;
        let ghost pool = self.pool.spec_pages();
        let root = self.root;
        let i0 = ((virtual_address >> 39u64) & 0x1ff) as usize;
        let i1 = ((virtual_address >> 30u64) & 0x1ff) as usize;
        let i2 = ((virtual_address >> 21u64) & 0x1ff) as usize;
        let i3 = ((virtual_address >> 12u64) & 0x1ff) as usize;
        proof {
            lemma_tables_basic(s0, lv, root, pool);
        }
        let r0 = self.read_entry(root, i0);
        if r0 & 3 != 3 {
            return Err(PagingError::NotMapped);
        }
        let t1 = r0 & OUTPUT_ADDRESS_MASK;
        proof {
            lemma_descriptor_bits(0);
            assert(r0 != 0);
            assert(s0[root][i0 as int] == r0);
            lemma_link(t1);
        }
        let r1 = self.read_entry(t1, i1);
        if r1 & 3 != 3 {
            return Err(PagingError::NotMapped);
        }
        let t2 = r1 & OUTPUT_ADDRESS_MASK;
        proof {
            assert(r1 != 0);
            assert(s0[t1][i1 as int] == r1);
            lemma_link(t2);
        }
        let r2 = self.read_entry(t2, i2);
        if r2 & 3 != 3 {
            return Err(PagingError::NotMapped);
        }
        let t3 = r2 & OUTPUT_ADDRESS_MASK;
        proof {
            assert(r2 != 0);
            assert(s0[t2][i2 as int] == r2);
            lemma_link(t3);
            assert(s0.contains_key(t1) && lv[t1] == 1);
            assert(s0.contains_key(t2) && lv[t2] == 2);
            assert(s0.contains_key(t3) && lv[t3] == 3);
        }
        let leaf = self.read_entry(t3, i3);
        if leaf & 3 != 3 {
            return Err(PagingError::NotMapped);
        }
        let ghost before = *self;
        self.write_entry(t3, i3, 0);
        proof {
            lemma_leaf_write_keeps_tables(s0, lv, root, pool, t3, i3 as int, 0);
            assert(self.table_pages() == s0.insert(t3, s0[t3].update(i3 as int, 0)));
            assert forall|p: u64| #[trigger] self.table_pages().contains_key(p) implies self.pool.spec_pages().take(
                self.pool.spec_used() as int,
            ).contains(p) by {
                assert(before.table_pages().contains_key(p));
            }
            assert forall|a: u64| !same_path(a, virtual_address) implies #[trigger] self.translate_spec(a)
                == before.translate_spec(a) by {
                lemma_walk_after_leaf_write(s0, lv, root, pool, virtual_address, t1, t2, t3, 0, a);
            }
            assert forall|a: u64|
                same_path(a, virtual_address) && a < LOW_VA_LIMIT && root < LOW_VA_LIMIT && root % PAGE_SIZE == 0
                    implies #[trigger] self.translate_spec(a) == Err::<Translation, PagingError>(
                PagingError::NotMapped,
            ) by {
                lemma_walk_after_leaf_write(s0, lv, root, pool, virtual_address, t1, t2, t3, 0, a);
            }
            let tf = self.table_pages();
            assert(root != t3 && t1 != t3 && t2 != t3);
            assert forall|a: u64|
                same_upper_path(a, virtual_address) && level_index(a, 12) != level_index(virtual_address, 12)
                    implies #[trigger] leaf_present(tf, root, a) == leaf_present(s0, root, a) by {
                lemma_descriptor_bits(a);
                assert(tf[root] == s0[root] && tf[t1] == s0[t1] && tf[t2] == s0[t2]);
                assert(tf[t3][level_index(a, 12) as int] == s0[t3][level_index(a, 12) as int]);
            }
        }
        Ok(())
    }

    /// Maps one page and records what the mapping establishes.
    fn map_page_checked(
        &mut self,
        va: u64,
        pa: u64,
        p: Permissions,
        t: MemoryType,
    ) -> (result: Result<(), PagingError>)
        requires
            old(self).wf(),
        ensures
            final(self).wf(),
            final(self).root == old(self).root,
            final(self).pool.spec_pages() == old(self).pool.spec_pages(),
            final(self).plan == old(self).plan,
            final(self).features == old(self).features,
            final(self).active == old(self).active,
            forall|a: u64|
                (#[trigger] old(self).translate_spec(a)) is Ok ==> final(self).translate_spec(a)
                    == old(self).translate_spec(a),
            forall|a: u64|
                !same_path(a, va) ==> #[trigger] final(self).translate_spec(a) == old(self).translate_spec(a),
            result is Err ==> forall|a: u64| #[trigger] final(self).translate_spec(a) == old(self).translate_spec(a),
            result is Ok && old(self).spec_root() < LOW_VA_LIMIT && old(self).spec_root() % PAGE_SIZE
                == 0 && va % PAGE_SIZE == 0 && va < LOW_VA_LIMIT ==> final(self).maps_page(va, pa, p, t),
            result is Ok ==> page_descriptor_result(pa, p, t) is Ok,
            walk_meets_empty_entry(old(self).table_pages(), old(self).root, va) && old(self).fresh_tables(3)
                && page_descriptor_result(pa, p, t) is Ok ==> result is Ok,
            result is Ok ==> forall|n: int|
                3 <= n && #[trigger] old(self).fresh_tables(n) ==> final(self).fresh_tables(n - 3),
            result is Ok ==> forall|a: u64|
                same_upper_path(a, va) && level_index(a, 12) != level_index(va, 12)
                    && walk_meets_empty_entry(old(self).table_pages(), old(self).root, a)
                    ==> #[trigger] walk_meets_empty_entry(final(self).table_pages(), final(self).root, a),
            result is Ok ==> forall|a: u64|
                !same_path(a, va) && walk_meets_empty_entry(old(self).table_pages(), old(self).root, a)
                    ==> #[trigger] walk_meets_empty_entry(final(self).table_pages(), final(self).root, a),
            upper_present(old(self).table_pages(), old(self).root, va) && walk_meets_empty_entry(
                old(self).table_pages(),
                old(self).root,
                va,
            ) && page_descriptor_result(pa, p, t) is Ok ==> result is Ok,
            upper_present(old(self).table_pages(), old(self).root, va) ==> forall|n: int|
                #[trigger] old(self).fresh_tables(n) ==> final(self).fresh_tables(n),
            result is Ok ==> upper_present(final(self).table_pages(), final(self).root, va),
    {
        let r = self.map_one(va, pa, p, t);
        proof {
            if r is Ok && self.root < LOW_VA_LIMIT && self.root % PAGE_SIZE == 0 && va % PAGE_SIZE
                == 0 && va < LOW_VA_LIMIT {
                assert forall|o: u64| o < PAGE_SIZE implies #[trigger] self.translate_spec(
                    (va + o) as u64,
                ) == Ok::<Translation, PagingError>(
                    Translation { physical_address: (pa + o) as u64, permissions: p, memory_type: t },
                ) by {
                    lemma_page_offset(va, o);
                    lemma_page_descriptor_round_trip(pa, p, t, o);
                }
            }
        }
        r
    }
}

/// Virtual page `k` of request `r`.
pub open spec fn request_va(r: MappingRequest, k: int) -> u64 {
    (r.virtual_start + k * PAGE_SIZE) as u64
}

/// Physical page `k` of request `r`.
pub open spec fn request_pa(r: MappingRequest, k: int) -> u64 {
    (r.physical_start + k * PAGE_SIZE) as u64
}

/// How many of the first `n` pages of request `r` start a run that does
/// not share its upper tables with the page before.
pub open spec fn request_region_starts(r: MappingRequest, n: int) -> int
    decreases n,
{
    if n <= 0 {
        0
    } else {
        request_region_starts(r, n - 1) + if n - 1 == 0 || !same_upper_path(
            request_va(r, n - 1),
            request_va(r, n - 2),
        ) {
            1int
        } else {
            0int
        }
    }
}

/// Region starts over every request of a plan.
pub open spec fn plan_region_starts(s: Seq<MappingRequest>) -> int
    decreases s.len(),
{
    if s.len() == 0 {
        0
    } else {
        plan_region_starts(s.drop_last()) + request_region_starts(s.last(), s.last().page_count as int)
    }
}

/// How many of the first `n` table pages start a run that does not share
/// its upper tables with the page before.
pub open spec fn pool_region_starts(pages: Seq<u64>, n: int) -> int
    decreases n,
{
    if n <= 0 {
        0
    } else {
        pool_region_starts(pages, n - 1) + if n - 1 == 0 || !same_upper_path(pages[n - 1], pages[n - 2]) {
            1int
        } else {
            0int
        }
    }
}

/// Region starts only grow with the number of pages counted.
proof fn lemma_request_starts_grow(r: MappingRequest, i: int, n: int)
    requires
        0 <= i <= n,
    ensures
        0 <= request_region_starts(r, i) <= request_region_starts(r, n),
    decreases n,
{
    if n > 0 {
        if i < n {
            lemma_request_starts_grow(r, i, n - 1);
        } else {
            lemma_request_starts_grow(r, n - 1, n - 1);
        }
    }
}

/// Region starts of the table pages only grow with the number counted.
proof fn lemma_pool_starts_grow(pages: Seq<u64>, i: int, n: int)
    requires
        0 <= i <= n,
    ensures
        0 <= pool_region_starts(pages, i) <= pool_region_starts(pages, n),
    decreases n,
{
    if n > 0 {
        if i < n {
            lemma_pool_starts_grow(pages, i, n - 1);
        } else {
            lemma_pool_starts_grow(pages, n - 1, n - 1);
        }
    }
}

/// Plan starts are never negative.
proof fn lemma_plan_starts_nonneg(s: Seq<MappingRequest>)
    ensures
        0 <= plan_region_starts(s),
    decreases s.len(),
{
    if s.len() > 0 {
        lemma_plan_starts_nonneg(s.drop_last());
        lemma_request_starts_grow(s.last(), 0, s.last().page_count as int);
    }
}

/// The starts of the first `r + 1` requests extend those of the first `r`
/// and never pass the whole plan's.
proof fn lemma_plan_starts_prefix(s: Seq<MappingRequest>, r: int)
    requires
        0 <= r < s.len(),
    ensures
        plan_region_starts(s.take(r + 1)) == plan_region_starts(s.take(r)) + request_region_starts(
            s[r],
            s[r].page_count as int,
        ),
        plan_region_starts(s.take(r + 1)) <= plan_region_starts(s),
        0 <= plan_region_starts(s.take(r)),
    decreases s.len() - r,
{
    assert(s.take(r + 1).drop_last() =~= s.take(r));
    assert(s.take(r + 1).last() == s[r]);
    lemma_plan_starts_nonneg(s.take(r));
    if r + 1 < s.len() {
        lemma_plan_starts_prefix(s, r + 1);
        lemma_request_starts_grow(s[r + 1], 0, s[r + 1].page_count as int);
    } else {
        assert(s.take(r + 1) =~= s);
    }
}

/// What building tables for `plan` from `pages` needs to succeed besides
/// passing the checks of `build_precheck`: enough further table pages a
/// descriptor can name for three tables per run of pages that does not
/// share its upper tables with the page mapped just before, a valid page
/// descriptor for every planned page and table page, and every planned
/// page and table page on a walk path of its own.
pub open spec fn build_ready(
    plan: Seq<MappingRequest>,
    pages: Seq<u64>,
    mmfr0: u64,
    sctlr: u64,
    identity: Seq<bool>,
) -> bool {
    let budget = 3 * (plan_region_starts(plan) + pool_region_starts(pages, MAX_TABLE_PAGES as int));
    &&& build_precheck(plan, pages, mmfr0, sctlr, identity) is None
    &&& 1 + budget <= MAX_TABLE_PAGES
    &&& forall|k: int| 1 <= k < 1 + budget ==> table_descriptor_result(#[trigger] pages[k]) is Ok
    &&& forall|r: int, k: int|
        0 <= r < plan.len() && 0 <= k < plan[r].page_count ==> page_descriptor_result(
            #[trigger] request_pa(plan[r], k),
            plan[r].permissions,
            plan[r].memory_type,
        ) is Ok
    &&& forall|i: int|
        0 <= i < MAX_TABLE_PAGES ==> page_descriptor_result(
            #[trigger] pages[i],
            Permissions::ReadWriteNoExecute,
            MemoryType::NormalWriteBack,
        ) is Ok
    &&& forall|i: int, j: int|
        0 <= i < MAX_TABLE_PAGES && 0 <= j < MAX_TABLE_PAGES && i != j ==> !same_path(
            #[trigger] pages[i],
            #[trigger] pages[j],
        )
    &&& forall|i: int, r: int, k: int|
        0 <= i < MAX_TABLE_PAGES && 0 <= r < plan.len() && 0 <= k < plan[r].page_count ==> !same_path(
            #[trigger] pages[i],
            #[trigger] request_va(plan[r], k),
        )
    &&& forall|r: int, k: int, q: int, j: int|
        0 <= r < plan.len() && 0 <= k < plan[r].page_count && 0 <= q < plan.len() && 0 <= j
            < plan[q].page_count && (r != q || k != j) ==> !same_path(
            #[trigger] request_va(plan[r], k),
            #[trigger] request_va(plan[q], j),
        )
}

/// Builds the translation tables for `plan` from the first
/// `MAX_TABLE_PAGES` of `pool_pages` without touching the live translation
/// regime. `mmfr0` and `sctlr` are `ID_AA64MMFR0_EL1` and `SCTLR_EL1`;
/// `pool_identity[i]` says whether the live regime maps `pool_pages[i]` to
/// itself, which matters only while the MMU is on. Every plan page and every
/// table page ends up mapped.
pub fn build(
    plan: &MappingPlan,
    pool_pages: &[u64],
    mmfr0: u64,
    sctlr: u64,
    pool_identity: &[bool],
) -> (result: Result<ActiveAddressSpace, PagingError>)
    requires
        plan.wf(),
        pool_identity@.len() == pool_pages@.len(),
        forall|i: int, j: int|
            0 <= i < j < pool_pages@.len() && j < MAX_TABLE_PAGES ==> #[trigger] pool_pages@[i]
                != #[trigger] pool_pages@[j],
    ensures
        build_precheck(plan@, pool_pages@, mmfr0, sctlr, pool_identity@) matches Some(e) ==> result
            is Err && result->Err_0 == e,
        result matches Ok(space) ==> {
            &&& build_precheck(plan@, pool_pages@, mmfr0, sctlr, pool_identity@) is None
            &&& space.wf()
            &&& space.spec_root() == pool_pages@[0]
            &&& space.spec_pool().spec_pages() == pool_pages@.take(MAX_TABLE_PAGES as int)
            &&& space.plan_requests() == plan@
            &&& features_of(mmfr0) == Ok::<CpuFeatures, PagingError>(space.spec_features())
            &&& !space.spec_active()
            &&& forall|j: int, k: int|
                0 <= j < plan@.len() && 0 <= k < plan@[j].page_count ==> #[trigger] space.maps_page(
                    (plan@[j].virtual_start + k * PAGE_SIZE) as u64,
                    (plan@[j].physical_start + k * PAGE_SIZE) as u64,
                    plan@[j].permissions,
                    plan@[j].memory_type,
                )
            &&& forall|i: int|
                0 <= i < MAX_TABLE_PAGES ==> #[trigger] space.maps_page(
                    pool_pages@[i],
                    pool_pages@[i],
                    Permissions::ReadWriteNoExecute,
                    MemoryType::NormalWriteBack,
                )
        },
        build_ready(plan@, pool_pages@, mmfr0, sctlr, pool_identity@) ==> result is Ok,
{
    let features = match CpuFeatures::from_mmfr0(mmfr0) {
        Ok(f) => f,
        Err(e) => return Err(e),
    };
    if sctlr & 0x200_0000 != 0 {
        return Err(PagingError::BigEndianEl1Unsupported);
    }
    let pool = match TablePool::reserve(pool_pages) {
        Ok(p) => p,
        Err(e) => return Err(e),
    };
    let limit = physical_limit(features.physical_address_bits);
    let requests = plan.as_slice();
    let mut j: usize = 0;
    while j < requests.len()
        invariant
            requests@ == plan@,
            plan.wf(),
            j <= requests@.len(),
            features_of(mmfr0) == Ok::<CpuFeatures, PagingError>(features),
            sctlr & 0x200_0000 == 0,
            pool_pages@.len() >= MAX_TABLE_PAGES,
            limit == physical_limit_of(features.physical_address_bits),
            forall|q: int| 0 <= q < j ==> physical_end_of(#[trigger] plan@[q]) <= limit,
        decreases requests@.len() - j,
    {
        let request = requests[j];
        assert(request_error(plan@[j as int]).is_none());
        let end = match request.physical_end() {
            Ok(e) => e,
            Err(e) => return Err(e),
        };
        if end > limit {
            assert(exists|q: int| 0 <= q < plan@.len() && physical_end_of(#[trigger] plan@[q]) > limit);
            return Err(PagingError::PhysicalAddressOutOfRange);
        }
        j += 1;
    }
    let mmu_on = sctlr & 1 != 0;
    let ghost pages = pool_pages@;
    let ghost identity = pool_identity@;
    let mut i: usize = 0;
    while i < MAX_TABLE_PAGES
        invariant
            plan.wf(),
            pool.wf(),
            pool.spec_pages() == pages.take(MAX_TABLE_PAGES as int),
            pool.spec_used() == 1,
            pages == pool_pages@,
            identity == pool_identity@,
            identity.len() == pages.len(),
            pages.len() >= MAX_TABLE_PAGES,
            i <= MAX_TABLE_PAGES,
            features_of(mmfr0) == Ok::<CpuFeatures, PagingError>(features),
            sctlr & 0x200_0000 == 0,
            limit == physical_limit_of(features.physical_address_bits),
            mmu_on == (sctlr & 1 != 0),
            forall|q: int| 0 <= q < plan@.len() ==> physical_end_of(#[trigger] plan@[q]) <= limit,
            forall|q: int|
                0 <= q < i ==> (#[trigger] pool_page_error(plan@, limit, mmu_on, identity[q], pages[q])) is None,
        decreases MAX_TABLE_PAGES - i,
    {
        let page = pool.page(i);
        let failure = check_pool_page(plan, limit, mmu_on, pool_identity[i], page);
        if let Some(e) = failure {
            proof {
                lemma_first_pool_error_skip(plan@, limit, mmu_on, pages, identity, 0, i as int);
            }
            return Err(e);
        }
        i += 1;
    }
    proof {
        lemma_first_pool_error_skip(plan@, limit, mmu_on, pages, identity, 0, MAX_TABLE_PAGES as int);
        assert(build_precheck(plan@, pool_pages@, mmfr0, sctlr, pool_identity@) is None);
    }
    let root = pool.root();
    assert(root == pool_pages@[0]);
    let mut space = ActiveAddressSpace {
        root,
        pool,
        plan: plan.duplicate(),
        features,
        active: false,
        tables: HashMap::new(),
        levels: Ghost(Map::empty()),
    };
    proof {
        broadcast use vstd::std_specs::hash::group_hash_axioms;
        assert(space.table_pages() =~= Map::<u64, Seq<u64>>::empty());
    }
    space.insert_table(root, Ghost(0));
    proof {
        let t = space.table_pages();
        let lv = space.levels@;
        reveal(tables_ok);
        assert(t.dom() =~= set![root]);
        assert(lv.dom() =~= set![root]);
        assert(space.pool.spec_pages().take(space.pool.spec_used() as int)[0] == root);
        assert(space.pool.spec_pages()[0] == root);
        assert(space.pool.spec_pages().contains(root));
        assert(tables_ok(t, lv, root, space.pool.spec_pages()));
    }
    let ghost ready = build_ready(plan@, pool_pages@, mmfr0, sctlr, pool_identity@);
    let ghost ps = plan_region_starts(plan@);
    let ghost pool_total = pool_region_starts(pages, MAX_TABLE_PAGES as int);
    proof {
        lemma_plan_starts_nonneg(plan@);
        lemma_pool_starts_grow(pages, 0, MAX_TABLE_PAGES as int);
        assert(plan@.take(0) =~= Seq::<MappingRequest>::empty());
        if ready {
            assert(space.fresh_tables(3 * ps + 3 * pool_total));
            assert forall|a: u64| #[trigger] walk_meets_empty_entry(space.table_pages(), space.root, a) by {
                lemma_descriptor_bits(a);
                assert(entry_at(space.table_pages(), space.root, level_index(a, 39) as int) == 0);
            }
        }
    }
    let mut r: usize = 0;
    while r < requests.len()
        invariant
            space.wf(),
            space.root == pool_pages@[0],
            build_precheck(plan@, pool_pages@, mmfr0, sctlr, pool_identity@) is None,
            features_of(mmfr0) == Ok::<CpuFeatures, PagingError>(features),
            space.pool.spec_pages() == pool_pages@.take(MAX_TABLE_PAGES as int),
            space.plan@ == plan@,
            space.features == features,
            !space.active,
            requests@ == plan@,
            plan.wf(),
            r <= requests@.len(),
            space.root % PAGE_SIZE == 0 && space.root < LOW_VA_LIMIT ==> forall|q: int, k: int|
                0 <= q < r && 0 <= k < plan@[q].page_count ==> #[trigger] space.maps_page(
                    (plan@[q].virtual_start + k * PAGE_SIZE) as u64,
                    (plan@[q].physical_start + k * PAGE_SIZE) as u64,
                    plan@[q].permissions,
                    plan@[q].memory_type,
                ),
            ready == build_ready(plan@, pool_pages@, mmfr0, sctlr, pool_identity@),
            pages == pool_pages@,
            ps == plan_region_starts(plan@),
            pool_total == pool_region_starts(pages, MAX_TABLE_PAGES as int),
            0 <= pool_total,
            ready ==> space.fresh_tables(
                3 * (ps - plan_region_starts(plan@.take(r as int))) + 3 * pool_total,
            ),
            ready ==> forall|q: int, j: int|
                r <= q < plan@.len() && 0 <= j < plan@[q].page_count ==> #[trigger] walk_meets_empty_entry(
                    space.table_pages(),
                    space.root,
                    request_va(plan@[q], j),
                ),
            ready ==> forall|i: int|
                0 <= i < MAX_TABLE_PAGES ==> #[trigger] walk_meets_empty_entry(
                    space.table_pages(),
                    space.root,
                    pages[i],
                ),
        decreases requests@.len() - r,
    {
        let request = requests[r];
        assert(request_error(plan@[r as int]).is_none());
        proof {
            lemma_plan_starts_prefix(plan@, r as int);
            lemma_request_starts_grow(request, 0, request.page_count as int);
        }
        let mut k: u64 = 0;
        while k < request.page_count
            invariant
                space.wf(),
                space.root == pool_pages@[0],
            build_precheck(plan@, pool_pages@, mmfr0, sctlr, pool_identity@) is None,
            features_of(mmfr0) == Ok::<CpuFeatures, PagingError>(features),
                space.pool.spec_pages() == pool_pages@.take(MAX_TABLE_PAGES as int),
                space.plan@ == plan@,
                space.features == features,
                !space.active,
                requests@ == plan@,
                plan.wf(),
                r < requests@.len(),
                request == plan@[r as int],
                request_error(request).is_none(),
                k <= request.page_count,
                space.root % PAGE_SIZE == 0 && space.root < LOW_VA_LIMIT ==> forall|q: int, j2: int|
                    0 <= q < r && 0 <= j2 < plan@[q].page_count ==> #[trigger] space.maps_page(
                        (plan@[q].virtual_start + j2 * PAGE_SIZE) as u64,
                        (plan@[q].physical_start + j2 * PAGE_SIZE) as u64,
                        plan@[q].permissions,
                        plan@[q].memory_type,
                    ),
                space.root % PAGE_SIZE == 0 && space.root < LOW_VA_LIMIT ==> forall|j2: int|
                    0 <= j2 < k ==> #[trigger] space.maps_page(
                        (request.virtual_start + j2 * PAGE_SIZE) as u64,
                        (request.physical_start + j2 * PAGE_SIZE) as u64,
                        request.permissions,
                        request.memory_type,
                    ),
                ready == build_ready(plan@, pool_pages@, mmfr0, sctlr, pool_identity@),
                pages == pool_pages@,
                ps == plan_region_starts(plan@),
                pool_total == pool_region_starts(pages, MAX_TABLE_PAGES as int),
                0 <= pool_total,
                plan_region_starts(plan@.take(r as int)) + request_region_starts(
                    request,
                    request.page_count as int,
                ) <= ps,
                ready ==> space.fresh_tables(
                    3 * (ps - plan_region_starts(plan@.take(r as int)) - request_region_starts(
                        request,
                        k as int,
                    )) + 3 * pool_total,
                ),
                ready && k > 0 ==> upper_present(
                    space.table_pages(),
                    space.root,
                    request_va(request, k - 1),
                ),
                ready ==> forall|j: int|
                    k <= j < request.page_count ==> #[trigger] walk_meets_empty_entry(
                        space.table_pages(),
                        space.root,
                        request_va(request, j),
                    ),
                ready ==> forall|q: int, j: int|
                    r < q < plan@.len() && 0 <= j < plan@[q].page_count ==> #[trigger] walk_meets_empty_entry(
                        space.table_pages(),
                        space.root,
                        request_va(plan@[q], j),
                    ),
                ready ==> forall|i: int|
                    0 <= i < MAX_TABLE_PAGES ==> #[trigger] walk_meets_empty_entry(
                        space.table_pages(),
                        space.root,
                        pages[i],
                    ),
            decreases request.page_count - k,
        {
            proof {
                assert(request.virtual_start + k * PAGE_SIZE <= u64::MAX);
                assert(request.physical_start + k * PAGE_SIZE <= u64::MAX);
                lemma_request_starts_grow(request, k + 1, request.page_count as int);
            }
            let offset = match k.checked_mul(PAGE_SIZE) {
                Some(o) => o,
                None => return Err(PagingError::AddressOverflow),
            };
            let va = match request.virtual_start.checked_add(offset) {
                Some(a) => a,
                None => return Err(PagingError::AddressOverflow),
            };
            let pa = match request.physical_start.checked_add(offset) {
                Some(a) => a,
                None => return Err(PagingError::AddressOverflow),
            };
            proof {
                assert(va + PAGE_SIZE <= virtual_end_of(request)) by (nonlinear_arith)
                    requires
                        va == request.virtual_start + k * PAGE_SIZE,
                        k < request.page_count,
                        virtual_end_of(request) == request.virtual_start + request.page_count * PAGE_SIZE,
                ;
                assert(va % PAGE_SIZE == 0) by (nonlinear_arith)
                    requires
                        va == request.virtual_start + k * PAGE_SIZE,
                        request.virtual_start % PAGE_SIZE == 0,
                ;
            }
            let ghost before = space;
            proof {
                if ready {
                    let v = request_va(request, k as int);
                    assert(va == v);
                    assert(pa == request_pa(plan@[r as int], k as int));
                    assert(page_descriptor_result(
                        request_pa(plan@[r as int], k as int),
                        plan@[r as int].permissions,
                        plan@[r as int].memory_type,
                    ) is Ok);
                    if !(k > 0 && same_upper_path(v, request_va(request, k - 1))) {
                        assert(request_region_starts(request, k + 1) == request_region_starts(
                            request,
                            k as int,
                        ) + 1);
                        lemma_fresh_fewer(
                            space,
                            3 * (ps - plan_region_starts(plan@.take(r as int)) - request_region_starts(
                                request,
                                k as int,
                            )) + 3 * pool_total,
                            3,
                        );
                    } else {
                        assert(request_region_starts(request, k + 1) == request_region_starts(
                            request,
                            k as int,
                        ));
                        assert(upper_present(space.table_pages(), space.root, v));
                    }
                }
            }
            match space.map_page_checked(va, pa, request.permissions, request.memory_type) {
                Ok(()) => {},
                Err(e) => return Err(e),
            }
            proof {
                if ready {
                    let v = request_va(request, k as int);
                    assert forall|j: int|
                        k + 1 <= j < request.page_count implies #[trigger] walk_meets_empty_entry(
                        space.table_pages(),
                        space.root,
                        request_va(request, j),
                    ) by {
                        assert(!same_path(request_va(plan@[r as int], j), request_va(plan@[r as int], k as int)));
                        assert(walk_meets_empty_entry(before.table_pages(), before.root, request_va(request, j)));
                    }
                    assert forall|q: int, j: int|
                        r < q < plan@.len() && 0 <= j < plan@[q].page_count implies #[trigger] walk_meets_empty_entry(
                        space.table_pages(),
                        space.root,
                        request_va(plan@[q], j),
                    ) by {
                        assert(!same_path(request_va(plan@[q], j), request_va(plan@[r as int], k as int)));
                        assert(walk_meets_empty_entry(before.table_pages(), before.root, request_va(plan@[q], j)));
                    }
                    assert forall|i: int|
                        0 <= i < MAX_TABLE_PAGES implies #[trigger] walk_meets_empty_entry(
                        space.table_pages(),
                        space.root,
                        pages[i],
                    ) by {
                        assert(!same_path(pages[i], request_va(plan@[r as int], k as int)));
                        assert(walk_meets_empty_entry(before.table_pages(), before.root, pages[i]));
                    }
                }
                if space.root % PAGE_SIZE == 0 && space.root < LOW_VA_LIMIT {
                    assert forall|q: int, j2: int|
                        0 <= q < r && 0 <= j2 < plan@[q].page_count implies #[trigger] space.maps_page(
                        (plan@[q].virtual_start + j2 * PAGE_SIZE) as u64,
                        (plan@[q].physical_start + j2 * PAGE_SIZE) as u64,
                        plan@[q].permissions,
                        plan@[q].memory_type,
                    ) by {
                        lemma_maps_page_kept(
                            before,
                            space,
                            (plan@[q].virtual_start + j2 * PAGE_SIZE) as u64,
                            (plan@[q].physical_start + j2 * PAGE_SIZE) as u64,
                            plan@[q].permissions,
                            plan@[q].memory_type,
                        );
                    }
                    assert forall|j2: int| 0 <= j2 < k + 1 implies #[trigger] space.maps_page(
                        (request.virtual_start + j2 * PAGE_SIZE) as u64,
                        (request.physical_start + j2 * PAGE_SIZE) as u64,
                        request.permissions,
                        request.memory_type,
                    ) by {
                        if j2 < k {
                            lemma_maps_page_kept(
                                before,
                                space,
                                (request.virtual_start + j2 * PAGE_SIZE) as u64,
                                (request.physical_start + j2 * PAGE_SIZE) as u64,
                                request.permissions,
                                request.memory_type,
                            );
                        }
                    }
                }
            }
            k += 1;
        }
        proof {
            if ready {
                assert forall|q: int, j: int|
                    r + 1 <= q < plan@.len() && 0 <= j < plan@[q].page_count implies #[trigger] walk_meets_empty_entry(
                    space.table_pages(),
                    space.root,
                    request_va(plan@[q], j),
                ) by {}
            }
        }
        r += 1;
    }
    proof {
        assert(plan@.take(plan@.len() as int) =~= plan@);
    }
    let mut p: usize = 0;
    while p < MAX_TABLE_PAGES
        invariant
            space.wf(),
            space.root == pool_pages@[0],
            build_precheck(plan@, pool_pages@, mmfr0, sctlr, pool_identity@) is None,
            features_of(mmfr0) == Ok::<CpuFeatures, PagingError>(features),
            space.pool.spec_pages() == pool_pages@.take(MAX_TABLE_PAGES as int),
            space.plan@ == plan@,
            space.features == features,
            !space.active,
            plan.wf(),
            pool_pages@.len() >= MAX_TABLE_PAGES,
            p <= MAX_TABLE_PAGES,
            p > 0 ==> space.root % PAGE_SIZE == 0 && space.root < LOW_VA_LIMIT,
            space.root % PAGE_SIZE == 0 && space.root < LOW_VA_LIMIT ==> forall|q: int, j2: int|
                0 <= q < plan@.len() && 0 <= j2 < plan@[q].page_count ==> #[trigger] space.maps_page(
                    (plan@[q].virtual_start + j2 * PAGE_SIZE) as u64,
                    (plan@[q].physical_start + j2 * PAGE_SIZE) as u64,
                    plan@[q].permissions,
                    plan@[q].memory_type,
                ),
            forall|q: int|
                0 <= q < p ==> #[trigger] space.maps_page(
                    pool_pages@[q],
                    pool_pages@[q],
                    Permissions::ReadWriteNoExecute,
                    MemoryType::NormalWriteBack,
                ),
            ready == build_ready(plan@, pool_pages@, mmfr0, sctlr, pool_identity@),
            pages == pool_pages@,
            pool_total == pool_region_starts(pages, MAX_TABLE_PAGES as int),
            ready ==> space.fresh_tables(3 * (pool_total - pool_region_starts(pages, p as int))),
            ready && p > 0 ==> upper_present(space.table_pages(), space.root, pages[p - 1]),
            ready ==> forall|i: int|
                p <= i < MAX_TABLE_PAGES ==> #[trigger] walk_meets_empty_entry(
                    space.table_pages(),
                    space.root,
                    pages[i],
                ),
        decreases MAX_TABLE_PAGES - p,
    {
        let page = space.pool.page(p);
        let ghost before = space;
        proof {
            if ready {
                assert(page == pages[p as int]);
                lemma_pool_starts_grow(pages, p + 1, MAX_TABLE_PAGES as int);
                assert(page_descriptor_result(
                    pages[p as int],
                    Permissions::ReadWriteNoExecute,
                    MemoryType::NormalWriteBack,
                ) is Ok);
                if !(p > 0 && same_upper_path(pages[p as int], pages[p - 1])) {
                    assert(pool_region_starts(pages, p + 1) == pool_region_starts(pages, p as int) + 1);
                    lemma_fresh_fewer(space, 3 * (pool_total - pool_region_starts(pages, p as int)), 3);
                } else {
                    assert(pool_region_starts(pages, p + 1) == pool_region_starts(pages, p as int));
                    assert(upper_present(space.table_pages(), space.root, pages[p as int]));
                }
            }
        }
        match space.map_page_checked(page, page, Permissions::ReadWriteNoExecute, MemoryType::NormalWriteBack) {
            Ok(()) => {},
            Err(e) => return Err(e),
        }
        proof {
            if ready {
                assert forall|i: int|
                    p + 1 <= i < MAX_TABLE_PAGES implies #[trigger] walk_meets_empty_entry(
                    space.table_pages(),
                    space.root,
                    pages[i],
                ) by {
                    assert(!same_path(pages[i], pages[p as int]));
                    assert(walk_meets_empty_entry(before.table_pages(), before.root, pages[i]));
                }
            }
            assert(page % PAGE_SIZE == 0 && page < LOW_VA_LIMIT);
            if p == 0 {
                assert(space.root == page);
            }
            assert forall|q: int| 0 <= q < p + 1 implies #[trigger] space.maps_page(
                pool_pages@[q],
                pool_pages@[q],
                Permissions::ReadWriteNoExecute,
                MemoryType::NormalWriteBack,
            ) by {
                if q < p {
                    lemma_maps_page_kept(
                        before,
                        space,
                        pool_pages@[q],
                        pool_pages@[q],
                        Permissions::ReadWriteNoExecute,
                        MemoryType::NormalWriteBack,
                    );
                }
            }
            if space.root % PAGE_SIZE == 0 && space.root < LOW_VA_LIMIT {
                assert forall|q: int, j2: int|
                    0 <= q < plan@.len() && 0 <= j2 < plan@[q].page_count implies #[trigger] space.maps_page(
                    (plan@[q].virtual_start + j2 * PAGE_SIZE) as u64,
                    (plan@[q].physical_start + j2 * PAGE_SIZE) as u64,
                    plan@[q].permissions,
                    plan@[q].memory_type,
                ) by {
                    lemma_maps_page_kept(
                        before,
                        space,
                        (plan@[q].virtual_start + j2 * PAGE_SIZE) as u64,
                        (plan@[q].physical_start + j2 * PAGE_SIZE) as u64,
                        plan@[q].permissions,
                        plan@[q].memory_type,
                    );
                }
            }
        }
        p += 1;
    }
    Ok(space)
}

/// `probe` answers as `cur` does.
pub open spec fn probes_as<F: Fn(u64) -> bool>(probe: F, cur: spec_fn(u64) -> bool) -> bool {
    forall|a: u64, b: bool| #[trigger] call_ensures(probe, (a,), b) ==> b == cur(a)
}

/// The register values that switch the MMU over to a space.
#[derive(Clone, Copy, Debug, PartialEq, Eq, Structural)]
pub struct ActivationRegisters {
    /// `SCTLR_EL1` with the MMU off, written first.
    pub sctlr_disabled: u64,
    /// `MAIR_EL1`.
    pub mair: u64,
    /// `TCR_EL1`.
    pub tcr: u64,
    /// `TTBR0_EL1`: the root table.
    pub ttbr0: u64,
    /// `SCTLR_EL1` with the MMU and caches on, written last.
    pub sctlr_enabled: u64,
}

/// The single-page device mapping the UART must have.
pub open spec fn required_pl011() -> MappingRequest {
    MappingRequest {
        virtual_start: PL011_BASE,
        physical_start: PL011_BASE,
        page_count: 1,
        permissions: Permissions::ReadWriteNoExecute,
        memory_type: MemoryType::Device,
    }
}

/// The start of the page holding `a`.
pub open spec fn page_of(a: u64) -> u64 {
    (a - a % PAGE_SIZE) as u64
}

/// Why the page at `addr` is not usable across activation: the new tables
/// must map it to itself, and so must the live regime while the MMU is on.
pub open spec fn address_failure(
    space: ActiveAddressSpace,
    addr: u64,
    mmu_on: bool,
    cur: spec_fn(u64) -> bool,
) -> Option<PagingError> {
    match space.translate_spec(addr) {
        Err(e) => Some(e),
        Ok(t) => if t.physical_address != addr {
            Some(PagingError::LiveIdentityMappingMissing)
        } else if mmu_on && !cur(addr) {
            Some(PagingError::CurrentIdentityMappingMissing)
        } else {
            None
        },
    }
}

/// The check of the page holding the program counter, stack pointer or vector base.
pub open spec fn fixed_failure(
    space: ActiveAddressSpace,
    addr: u64,
    mmu_on: bool,
    cur: spec_fn(u64) -> bool,
) -> Option<PagingError> {
    match range_error(IdentityRange { start: addr, page_count: 1 }) {
        Some(e) => Some(e),
        None => if !identity_at(space.plan_requests(), addr as int) {
            Some(PagingError::LiveIdentityMappingMissing)
        } else {
            address_failure(space, addr, mmu_on, cur)
        },
    }
}

/// The first failing page of `r` at or after page `k`.
pub open spec fn range_pages_failure(
    space: ActiveAddressSpace,
    r: IdentityRange,
    mmu_on: bool,
    cur: spec_fn(u64) -> bool,
    k: int,
) -> Option<PagingError>
    decreases r.page_count - k,
{
    if k < 0 || k >= r.page_count {
        None
    } else {
        match address_failure(space, (r.start + k * PAGE_SIZE) as u64, mmu_on, cur) {
            Some(e) => Some(e),
            None => range_pages_failure(space, r, mmu_on, cur, k + 1),
        }
    }
}

/// The check of one live range.
pub open spec fn range_failure(
    space: ActiveAddressSpace,
    r: IdentityRange,
    mmu_on: bool,
    cur: spec_fn(u64) -> bool,
) -> Option<PagingError> {
    match range_error(r) {
        Some(e) => Some(e),
        None => if !(forall|k: int|
            0 <= k < r.page_count ==> #[trigger] identity_at(
                space.plan_requests(),
                r.start + k * PAGE_SIZE,
            )) {
            Some(PagingError::LiveIdentityMappingMissing)
        } else {
            range_pages_failure(space, r, mmu_on, cur, 0)
        },
    }
}

/// The first failing live range at or after `i`.
pub open spec fn ranges_failure(
    space: ActiveAddressSpace,
    ranges: Seq<IdentityRange>,
    mmu_on: bool,
    cur: spec_fn(u64) -> bool,
    i: int,
) -> Option<PagingError>
    decreases ranges.len() - i,
{
    if i < 0 || i >= ranges.len() {
        None
    } else {
        match range_failure(space, ranges[i], mmu_on, cur) {
            Some(e) => Some(e),
            None => ranges_failure(space, ranges, mmu_on, cur, i + 1),
        }
    }
}

/// What preparing to activate `space` gives, with the live regime answering
/// identity probes as `cur` does.
pub open spec fn activation_result(
    space: ActiveAddressSpace,
    ranges: Seq<IdentityRange>,
    pc: u64,
    sp: u64,
    vbar: u64,
    old_sctlr: u64,
    cur: spec_fn(u64) -> bool,
) -> Result<ActivationRegisters, PagingError> {
    let mmu_on = old_sctlr & 1 != 0;
    if space.spec_active() {
        Err(PagingError::AlreadyActive)
    } else if !space.plan_requests().contains(required_pl011()) {
        Err(PagingError::InvalidPl011Mapping)
    } else if old_sctlr & 0x200_0000 != 0 {
        Err(PagingError::BigEndianEl1Unsupported)
    } else if let Some(e) = fixed_failure(space, page_of(pc), mmu_on, cur) {
        Err(e)
    } else if let Some(e) = fixed_failure(space, page_of(sp), mmu_on, cur) {
        Err(e)
    } else if let Some(e) = fixed_failure(space, page_of(vbar), mmu_on, cur) {
        Err(e)
    } else if let Some(e) = ranges_failure(space, ranges, mmu_on, cur, 0) {
        Err(e)
    } else {
        match ips_of(space.spec_features().physical_address_bits) {
            None => Err(PagingError::PhysicalAddressRangeUnsupported),
            Some(v) => Ok(
                ActivationRegisters {
                    sctlr_disabled: old_sctlr & !1u64,
                    mair: MAIR_VALUE,
                    tcr: TCR_FIXED_BITS | (v << 32u64),
                    ttbr0: space.spec_root(),
                    sctlr_enabled: old_sctlr | SCTLR_REQUIRED_BITS,
                },
            ),
        }
    }
}

impl ActiveAddressSpace {
    /// Whether the space has been switched to.
    pub fn is_active(&self) -> (b: bool)
        ensures
            b == self.spec_active(),
    {
        self.active
    }

    /// Records that the MMU now uses this space.
    pub fn mark_active(&mut self)
        requires
            old(self).wf(),
        ensures
            final(self).wf(),
            final(self).spec_active(),
            final(self).table_pages() == old(self).table_pages(),
            final(self).spec_root() == old(self).spec_root(),
            final(self).spec_pool() == old(self).spec_pool(),
            final(self).spec_plan() == old(self).spec_plan(),
            final(self).spec_features() == old(self).spec_features(),
    {
        self.active = true;
    }

    fn plan_has_pl011(&self) -> (b: bool)
        ensures
            b == self.plan_requests().contains(required_pl011()),
    {
        let requests = self.plan.as_slice();
        let mut i: usize = 0;
        while i < requests.len()
            invariant
                requests@ == self.plan@,
                i <= requests@.len(),
                forall|j: int| 0 <= j < i ==> requests@[j] != required_pl011(),
            decreases requests@.len() - i,
        {
            let r = requests[i];
            if r.virtual_start == PL011_BASE && r.physical_start == PL011_BASE && r.page_count == 1
                && r.permissions == Permissions::ReadWriteNoExecute && r.memory_type
                == MemoryType::Device {
                assert(requests@[i as int] == required_pl011());
                return true;
            }
            i += 1;
        }
        false
    }

    /// Checks one page against the new tables and, with the MMU on, the live regime.
    fn check_address<F: Fn(u64) -> bool>(&self, addr: u64, mmu_on: bool, probe: &F) -> (result: Option<
        PagingError,
    >)
        requires
            forall|a: u64| call_requires(*probe, (a,)),
        ensures
            forall|cur: spec_fn(u64) -> bool|
                #![trigger address_failure(*self, addr, mmu_on, cur)]
                probes_as(*probe, cur) ==> result == address_failure(*self, addr, mmu_on, cur),
    {
        let t = match self.translate(addr) {
            Ok(t) => t,
            Err(e) => return Some(e),
        };
        if t.physical_address != addr {
            return Some(PagingError::LiveIdentityMappingMissing);
        }
        if mmu_on && !probe(addr) {
            return Some(PagingError::CurrentIdentityMappingMissing);
        }
        None
    }

    /// Checks the page holding the program counter, stack pointer or vector base.
    fn check_fixed<F: Fn(u64) -> bool>(&self, addr: u64, mmu_on: bool, probe: &F) -> (result: Option<
        PagingError,
    >)
        requires
            self.wf(),
            forall|a: u64| call_requires(*probe, (a,)),
        ensures
            forall|cur: spec_fn(u64) -> bool|
                #![trigger fixed_failure(*self, addr, mmu_on, cur)]
                probes_as(*probe, cur) ==> result == fixed_failure(*self, addr, mmu_on, cur),
    {
        let range = IdentityRange { start: addr, page_count: 1 };
        let covered = match self.plan.contains_identity_range(range) {
            Ok(b) => b,
            Err(e) => return Some(e),
        };
        assert(addr + 0 * PAGE_SIZE == addr);
        if !covered {
            return Some(PagingError::LiveIdentityMappingMissing);
        }
        let r = self.check_address(addr, mmu_on, probe);
        assert(forall|cur: spec_fn(u64) -> bool|
            #![trigger fixed_failure(*self, addr, mmu_on, cur)]
            probes_as(*probe, cur) ==> fixed_failure(*self, addr, mmu_on, cur) == address_failure(
                *self,
                addr,
                mmu_on,
                cur,
            ));
        r
    }

    /// Checks every page of one live range.
    fn check_range<F: Fn(u64) -> bool>(&self, range: IdentityRange, mmu_on: bool, probe: &F) -> (result:
        Option<PagingError>)
        requires
            self.wf(),
            forall|a: u64| call_requires(*probe, (a,)),
        ensures
            forall|cur: spec_fn(u64) -> bool|
                #![trigger range_failure(*self, range, mmu_on, cur)]
                probes_as(*probe, cur) ==> result == range_failure(*self, range, mmu_on, cur),
    {
        let covered = match self.plan.contains_identity_range(range) {
            Ok(b) => b,
            Err(e) => return Some(e),
        };
        assert(range_error(range).is_none());
        assert(covered == (forall|k: int|
            0 <= k < range.page_count ==> #[trigger] identity_at(
                self.plan@,
                range.start + k * PAGE_SIZE,
            )));
        assert(self.plan_requests() == self.plan@);
        assert(!covered ==> !(forall|k: int|
            0 <= k < range.page_count ==> #[trigger] identity_at(
                self.plan_requests(),
                range.start + k * PAGE_SIZE,
            )));
        if !covered {
            assert(forall|cur: spec_fn(u64) -> bool|
                #![trigger range_failure(*self, range, mmu_on, cur)]
                range_failure(*self, range, mmu_on, cur) == Some(PagingError::LiveIdentityMappingMissing));
            return Some(PagingError::LiveIdentityMappingMissing);
        }
        let end = match range.end() {
            Ok(e) => e,
            Err(e) => return Some(e),
        };
        let mut address = range.start;
        let mut k: u64 = 0;
        while address < end
            invariant
                range_error(range).is_none(),
                end == range_end_of(range),
                address == range.start + k * PAGE_SIZE,
                k <= range.page_count,
                forall|a: u64| call_requires(*probe, (a,)),
                forall|cur: spec_fn(u64) -> bool|
                    #![trigger range_failure(*self, range, mmu_on, cur)]
                    probes_as(*probe, cur) ==> range_failure(*self, range, mmu_on, cur)
                        == range_pages_failure(*self, range, mmu_on, cur, k as int),
            decreases range.page_count - k,
        {
            proof {
                assert(k < range.page_count) by (nonlinear_arith)
                    requires
                        range.start + k * PAGE_SIZE < range.start + range.page_count * PAGE_SIZE,
                ;
            }
            let r = self.check_address(address, mmu_on, probe);
            if r.is_some() {
                return r;
            }
            address = match address.checked_add(PAGE_SIZE) {
                Some(a) => a,
                None => return Some(PagingError::AddressOverflow),
            };
            k += 1;
        }
        proof {
            assert(k >= range.page_count) by (nonlinear_arith)
                requires
                    range.start + k * PAGE_SIZE >= range.start + range.page_count * PAGE_SIZE,
            ;
        }
        None
    }

    /// Checks that the running code, stack and vectors and every live range
    /// stay identity mapped across the switch, and gives the register values
    /// that make it. `pc`, `sp`, `vbar` and `old_sctlr` are the live values;
    /// `probe(address)` says whether the live regime maps `address` to itself.
    pub fn prepare_activation<F: Fn(u64) -> bool>(
        &self,
        live_ranges: &[IdentityRange],
        pc: u64,
        sp: u64,
        vbar: u64,
        old_sctlr: u64,
        probe: F,
    ) -> (result: Result<ActivationRegisters, PagingError>)
        requires
            self.wf(),
            forall|a: u64| call_requires(probe, (a,)),
        ensures
            forall|cur: spec_fn(u64) -> bool|
                #![trigger activation_result(*self, live_ranges@, pc, sp, vbar, old_sctlr, cur)]
                probes_as(probe, cur) ==> result == activation_result(
                    *self,
                    live_ranges@,
                    pc,
                    sp,
                    vbar,
                    old_sctlr,
                    cur,
                ),
    {
        if self.active {
            return Err(PagingError::AlreadyActive);
        }
        if !self.plan_has_pl011() {
            return Err(PagingError::InvalidPl011Mapping);
        }
        if old_sctlr & 0x200_0000 != 0 {
            return Err(PagingError::BigEndianEl1Unsupported);
        }
        let mmu_on = old_sctlr & 1 != 0;
        let pc_page = pc - pc % PAGE_SIZE;
        let sp_page = sp - sp % PAGE_SIZE;
        let vbar_page = vbar - vbar % PAGE_SIZE;
        if let Some(e) = self.check_fixed(pc_page, mmu_on, &probe) {
            return Err(e);
        }
        if let Some(e) = self.check_fixed(sp_page, mmu_on, &probe) {
            return Err(e);
        }
        if let Some(e) = self.check_fixed(vbar_page, mmu_on, &probe) {
            return Err(e);
        }
        let mut i: usize = 0;
        while i < live_ranges.len()
            invariant
                self.wf(),
                i <= live_ranges@.len(),
                forall|a: u64| call_requires(probe, (a,)),
                !self.spec_active(),
                self.plan_requests().contains(required_pl011()),
                old_sctlr & 0x200_0000 == 0,
                mmu_on == (old_sctlr & 1 != 0),
                pc_page == page_of(pc),
                sp_page == page_of(sp),
                vbar_page == page_of(vbar),
                forall|cur: spec_fn(u64) -> bool|
                    #![trigger activation_result(*self, live_ranges@, pc, sp, vbar, old_sctlr, cur)]
                    probes_as(probe, cur) ==> fixed_failure(*self, pc_page, mmu_on, cur).is_none()
                        && fixed_failure(*self, sp_page, mmu_on, cur).is_none() && fixed_failure(
                        *self,
                        vbar_page,
                        mmu_on,
                        cur,
                    ).is_none(),
                forall|cur: spec_fn(u64) -> bool|
                    #![trigger ranges_failure(*self, live_ranges@, mmu_on, cur, 0)]
                    probes_as(probe, cur) ==> ranges_failure(*self, live_ranges@, mmu_on, cur, 0)
                        == ranges_failure(*self, live_ranges@, mmu_on, cur, i as int),
            decreases live_ranges@.len() - i,
        {
            let r = self.check_range(live_ranges[i], mmu_on, &probe);
            if let Some(e) = r {
                assert forall|cur: spec_fn(u64) -> bool|
                    #![trigger activation_result(*self, live_ranges@, pc, sp, vbar, old_sctlr, cur)]
                    probes_as(probe, cur) implies Err::<ActivationRegisters, PagingError>(e)
                    == activation_result(*self, live_ranges@, pc, sp, vbar, old_sctlr, cur) by {
                    assert(range_failure(*self, live_ranges@[i as int], mmu_on, cur) == Some(e));
                    assert(ranges_failure(*self, live_ranges@, mmu_on, cur, i as int) == Some(e));
                    assert(ranges_failure(*self, live_ranges@, mmu_on, cur, 0) == Some(e));
                    assert(fixed_failure(*self, pc_page, mmu_on, cur).is_none());
                    assert(fixed_failure(*self, sp_page, mmu_on, cur).is_none());
                    assert(fixed_failure(*self, vbar_page, mmu_on, cur).is_none());
                }
                return Err(e);
            }
            i += 1;
        }
        let tcr = match tcr_value(self.features) {
            Ok(v) => v,
            Err(e) => return Err(e),
        };
        Ok(
            ActivationRegisters {
                sctlr_disabled: old_sctlr & !1u64,
                mair: MAIR_VALUE,
                tcr,
                ttbr0: self.root,
                sctlr_enabled: old_sctlr | SCTLR_REQUIRED_BITS,
            },
        )
    }
}

/// Checks the registers read back after the switch against what was written.
pub fn activation_readback(
    expected: ActivationRegisters,
    sctlr: u64,
    mair: u64,
    tcr: u64,
    ttbr0: u64,
    ttbr1: u64,
) -> (result: Result<(), PagingError>)
    ensures
        result is Ok <==> (sctlr == expected.sctlr_enabled && mair == expected.mair && tcr
            == expected.tcr && ttbr0 == expected.ttbr0 && ttbr1 == 0),
        result is Err ==> result == Err::<(), PagingError>(PagingError::ActivationReadbackFailed),
{
    if sctlr != expected.sctlr_enabled || mair != expected.mair || tcr != expected.tcr || ttbr0
        != expected.ttbr0 || ttbr1 != 0 {
        return Err(PagingError::ActivationReadbackFailed);
    }
    Ok(())
}

/// Bytes in the smallest data-cache line, from `CTR_EL0` (DminLine, bits 16..19).
pub fn cache_line_size(ctr: u64) -> (bytes: u64)
    ensures
        bytes == 4u64 << ((ctr >> 16u64) % 16),
{
    let log = (ctr >> 16u64) % 16;
    4u64 << log
}

/// Whether a `PAR_EL1` result for a stage-1 probe of `address` reports a
/// successful translation to `address` itself.
pub fn par_identity(par: u64, address: u64) -> (identity: bool)
    ensures
        identity == (par & 1 == 0 && ((par & OUTPUT_ADDRESS_MASK) | (address & 0xfff)) == address),
{
    if par & 1 != 0 {
        return false;
    }
    ((par & OUTPUT_ADDRESS_MASK) | (address & (PAGE_SIZE - 1))) == address
}

} // verus!
