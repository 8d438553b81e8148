use std::collections::HashMap;
use vstd::prelude::*;
use crate::codec::{
    decode_record, encode_model, lemma_round_trip, valid_model, DecodeError, Entity, EntityModel,
    RECORD_SIZE,
};

verus! {

broadcast use vstd::std_specs::hash::group_hash_axioms;

/// Size in bytes of one page.
pub const PAGE_SIZE: usize = 4096;

/// Number of records that fit in one page.
pub const RECORDS_PER_PAGE: usize = PAGE_SIZE / RECORD_SIZE;

/// Bytes of a page that records can occupy; the rest of the page stays zero.
pub const USED_PAGE_BYTES: usize = RECORDS_PER_PAGE * RECORD_SIZE;

/// The page that holds record `i`.
pub open spec fn page_of(i: int) -> int {
    i / (RECORDS_PER_PAGE as int)
}

/// Where record `i` starts inside its page.
pub open spec fn offset_of(i: int) -> int {
    (i % (RECORDS_PER_PAGE as int)) * (RECORD_SIZE as int)
}

/// The bytes of slot `i` in `pages`.
pub open spec fn slot(pages: Map<usize, Seq<u8>>, i: int) -> Seq<u8> {
    pages[page_of(i) as usize].subrange(offset_of(i), offset_of(i) + RECORD_SIZE)
}

/// Byte `j` of page `k` belongs to one of the first `n` records.
pub open spec fn in_use(k: int, j: int, n: int) -> bool {
    0 <= j < USED_PAGE_BYTES && k * (RECORDS_PER_PAGE as int) + j / (RECORD_SIZE as int) < n
}

/// `pages` holds exactly the pages needed for `entities`, each of full size, with every
/// byte outside the records zero (the tail, and the slots not used yet), and entity `i`
/// encoded at slot `i`.
pub open spec fn pages_hold(pages: Map<usize, Seq<u8>>, entities: Seq<EntityModel>) -> bool {
    &&& forall|k: usize|
        #[trigger] pages.contains_key(k) <==> (k as int) * (RECORDS_PER_PAGE as int)
            < entities.len()
    &&& forall|k: usize| #[trigger]
        pages.contains_key(k) ==> pages[k].len() == PAGE_SIZE
    &&& forall|k: usize, j: int|
        pages.contains_key(k) && 0 <= j < PAGE_SIZE && !in_use(k as int, j, entities.len() as int)
            ==> #[trigger] pages[k][j] == 0u8
    &&& forall|i: int| 0 <= i < entities.len() ==> valid_model(#[trigger] entities[i])
    &&& forall|i: int|
        0 <= i < entities.len() ==> #[trigger] slot(pages, i) == encode_model(entities[i])
}

/// An append-only store of entities, kept as records in fixed-size pages.
pub struct Database {
    page_table: HashMap<usize, Vec<u8>>,
    entities: usize,
    contents: Ghost<Seq<EntityModel>>,
}

impl View for Database {
    type V = Seq<EntityModel>;

    /// The entities in the order in which they were inserted.
    closed spec fn view(&self) -> Seq<EntityModel> {
        self.contents@
    }
}

proof fn lemma_slot_bounds(i: int)
    requires
        0 <= i,
    ensures
        0 <= offset_of(i),
        offset_of(i) + RECORD_SIZE <= USED_PAGE_BYTES,
        page_of(i) * (RECORDS_PER_PAGE as int) <= i,
        i < (page_of(i) + 1) * (RECORDS_PER_PAGE as int),
{
    vstd::arithmetic::div_mod::lemma_fundamental_div_mod(i, RECORDS_PER_PAGE as int);
}

proof fn lemma_earlier_slot(i: int, n: int)
    requires
        0 <= i < n,
        page_of(i) == page_of(n),
    ensures
        offset_of(i) + RECORD_SIZE <= offset_of(n),
{
    vstd::arithmetic::div_mod::lemma_fundamental_div_mod(i, RECORDS_PER_PAGE as int);
    vstd::arithmetic::div_mod::lemma_fundamental_div_mod(n, RECORDS_PER_PAGE as int);
}

proof fn lemma_byte_of_slot(n: int, j: int)
    requires
        0 <= n,
        offset_of(n) <= j < offset_of(n) + RECORD_SIZE,
    ensures
        in_use(page_of(n), j, n + 1),
{
    lemma_slot_bounds(n);
    vstd::arithmetic::div_mod::lemma_fundamental_div_mod(n, RECORDS_PER_PAGE as int);
    let a = n % (RECORDS_PER_PAGE as int);
    assert(j / (RECORD_SIZE as int) == a) by {
        vstd::arithmetic::div_mod::lemma_fundamental_div_mod(j, RECORD_SIZE as int);
        vstd::arithmetic::div_mod::lemma_mod_bound(j, RECORD_SIZE as int);
        assert(j / 300 == a) by (nonlinear_arith)
            requires
                300 * a <= j < 300 * a + 300,
                j == 300 * (j / 300) + j % 300,
                0 <= j % 300 < 300,
        ;
    }
}

/// A zero-filled page.
fn zeroed_page() -> (r: Vec<u8>)
    ensures
        r@.len() == PAGE_SIZE,
        forall|j: int| 0 <= j < PAGE_SIZE ==> r@[j] == 0u8,
{
    let mut page: Vec<u8> = Vec::new();
    while page.len() < PAGE_SIZE
        invariant
            page.len() <= PAGE_SIZE,
            forall|j: int| 0 <= j < page.len() ==> page@[j] == 0u8,
        decreases PAGE_SIZE - page.len(),
    {
        page.push(0u8);
    }
    page
}

impl Database {
    /// The pages, by page number.
    pub closed spec fn pages(&self) -> Map<usize, Seq<u8>> {
        self.page_table@.map_values(|v: Vec<u8>| v@)
    }

    /// The record count.
    pub closed spec fn count(&self) -> nat {
        self.entities as nat
    }

    /// The count matches the entities, and the pages hold them as `pages_hold` says.
    pub open spec fn wf(&self) -> bool {
        &&& self.count() == self@.len()
        &&& pages_hold(self.pages(), self@)
    }

    /// An empty store.
    pub fn new() -> (r: Database)
        ensures
            r.wf(),
            r@ == Seq::<EntityModel>::empty(),
    {
        let r = Database { page_table: HashMap::new(), entities: 0, contents: Ghost(Seq::empty()) };
        assert(r.pages() =~= Map::<usize, Seq<u8>>::empty());
        r
    }

    /// Number of entities held.
    pub fn len(&self) -> (r: usize)
        requires
            self.wf(),
        ensures
            r == self@.len(),
    {
        self.entities
    }

    /// The bytes of page `page_num`, if that page has been allocated.
    pub fn page(&self, page_num: usize) -> (r: Option<&Vec<u8>>)
        ensures
            match r {
                Some(p) => self.pages().contains_key(page_num) && p@ == self.pages()[page_num],
                None => !self.pages().contains_key(page_num),
            },
    {
        self.page_table.get(&page_num)
    }

    /// Appends `entity` at slot `len()`: page `len() / 13`, offset `(len() % 13) * 300`,
    /// allocating that page zero-filled when it does not exist yet.
    pub fn insert(&mut self, entity: Entity)
        requires
            old(self).wf(),
            old(self)@.len() < usize::MAX,
        ensures
            final(self).wf(),
            final(self)@ == old(self)@.push(entity@),
            ({
                let n = old(self)@.len() as int;
                let p = page_of(n) as usize;
                &&& final(self).pages().remove(p) == old(self).pages().remove(p)
                &&& final(self).pages().contains_key(p)
                &&& forall|j: int|
                    0 <= j < PAGE_SIZE && !(offset_of(n) <= j < offset_of(n) + RECORD_SIZE)
                        ==> #[trigger] final(self).pages()[p][j] == if old(self).pages().contains_key(
                        p,
                    ) {
                        old(self).pages()[p][j]
                    } else {
                        0u8
                    }
            }),
    {
        let record = entity.serialize();
        let n = self.entities;
        let page_num = n / RECORDS_PER_PAGE;
        let offset = (n % RECORDS_PER_PAGE) * RECORD_SIZE;
        let ghost old_pages = self.pages();
        proof {
            lemma_slot_bounds(n as int);
        }
        let mut page = match self.page_table.remove(&page_num) {
            Some(p) => p,
            None => zeroed_page(),
        };
        let ghost before = page@;
        proof {
            if old_pages.contains_key(page_num) {
                assert(before == old_pages[page_num]);
            } else {
                assert(n as int == page_num * RECORDS_PER_PAGE);
                assert(offset == 0);
            }
        }
        let mut j: usize = 0;
        while j < RECORD_SIZE
            invariant
                j <= RECORD_SIZE,
                offset + RECORD_SIZE <= USED_PAGE_BYTES,
                record@.len() == RECORD_SIZE,
                before.len() == PAGE_SIZE,
                page@.len() == PAGE_SIZE,
                forall|x: int| 0 <= x < j ==> page@[offset + x] == record@[x],
                forall|x: int|
                    0 <= x < PAGE_SIZE && !(offset <= x < offset + j) ==> page@[x] == before[x],
            decreases RECORD_SIZE - j,
        {
            page.set(offset + j, record[j]);
            j = j + 1;
        }
        self.page_table.insert(page_num, page);
        self.entities = n + 1;
        self.contents = Ghost(self.contents@.push(entity@));
        proof {
            let pages = self.pages();
            let es = self@;
            assert(pages =~= old_pages.insert(page_num, page@));
            assert forall|k: usize| #[trigger]
                pages.contains_key(k) <==> (k as int) * (RECORDS_PER_PAGE as int) < es.len() by {
                if k != page_num {
                    if (k as int) * (RECORDS_PER_PAGE as int) < es.len() {
                        assert((k as int) * (RECORDS_PER_PAGE as int) != n) by {
                            if (k as int) * (RECORDS_PER_PAGE as int) == n {
                                vstd::arithmetic::div_mod::lemma_div_multiples_vanish(
                                    k as int,
                                    RECORDS_PER_PAGE as int,
                                );
                            }
                        }
                    }
                }
            }
            assert forall|k: usize, x: int|
                pages.contains_key(k) && 0 <= x < PAGE_SIZE && !in_use(k as int, x, es.len() as int)
                implies #[trigger] pages[k][x] == 0u8 by {
                assert(!in_use(k as int, x, n as int));
                if k == page_num {
                    if offset <= x < offset + RECORD_SIZE {
                        lemma_byte_of_slot(n as int, x);
                    }
                    assert(page@[x] == before[x]);
                }
            }
            assert(pages.remove(page_num) =~= old_pages.remove(page_num));
            assert forall|i: int| 0 <= i < es.len() implies valid_model(#[trigger] es[i]) by {
                if i < n {
                    assert(es[i] == old(self)@[i]);
                }
            }
            assert forall|i: int| 0 <= i < es.len() implies #[trigger] slot(pages, i)
                == encode_model(es[i]) by {
                lemma_slot_bounds(i);
                if i == n {
                    assert(slot(pages, i) =~= record@);
                } else {
                    assert(slot(old_pages, i) == encode_model(es[i]));
                    if page_of(i) == page_num {
                        lemma_earlier_slot(i, n as int);
                        assert(slot(pages, i) =~= slot(old_pages, i));
                    }
                }
            }
        }
    }

    /// All entities, decoded from their records, in insertion order.
    pub fn select(&self) -> (r: Vec<Entity>)
        requires
            self.wf(),
        ensures
            r@.len() == self@.len(),
            forall|i: int| 0 <= i < r@.len() ==> #[trigger] r@[i]@ == self@[i],
    {
        let mut result: Vec<Entity> = Vec::new();
        let mut i: usize = 0;
        while i < self.entities
            invariant
                self.wf(),
                i <= self.entities,
                result@.len() == i,
                forall|k: int| 0 <= k < i ==> #[trigger] result@[k]@ == self@[k],
            decreases self.entities - i,
        {
            let page_num = i / RECORDS_PER_PAGE;
            let offset = (i % RECORDS_PER_PAGE) * RECORD_SIZE;
            proof {
                lemma_slot_bounds(i as int);
                assert(slot(self.pages(), i as int) == encode_model(self@[i as int]));
                lemma_round_trip(self@[i as int]);
                assert(self.pages().contains_key(page_num));
                assert(self.page_table@.contains_key(page_num));
                assert(self.pages()[page_num] == self.page_table@[page_num]@);
            }
            match self.page_table.get(&page_num) {
                Some(page) => {
                    let record = copy_record(page, offset);
                    assert(record@ == slot(self.pages(), i as int));
                    match Entity::deserialize(&record) {
                        Ok(e) => result.push(e),
                        Err(_) => {},
                    }
                },
                None => {},
            }
            i = i + 1;
        }
        result
    }
}

/// Entity `i` of a store stands in page `i / 13` from offset `(i % 13) * 300`, and the
/// 300 bytes there decode to that entity.
pub proof fn lemma_addressing(db: &Database, i: int)
    requires
        db.wf(),
        0 <= i < db@.len(),
    ensures
        db.pages().contains_key(page_of(i) as usize),
        0 <= offset_of(i),
        offset_of(i) + RECORD_SIZE <= PAGE_SIZE,
        db.pages()[page_of(i) as usize].subrange(offset_of(i), offset_of(i) + RECORD_SIZE)
            == encode_model(db@[i]),
        decode_record(db.pages()[page_of(i) as usize].subrange(offset_of(i), offset_of(i) + RECORD_SIZE))
            == Ok::<EntityModel, DecodeError>(db@[i]),
{
    lemma_slot_bounds(i);
    assert(slot(db.pages(), i) == encode_model(db@[i]));
    assert(valid_model(db@[i]));
    lemma_round_trip(db@[i]);
}

/// Every page of a store is 4096 bytes long, and its bytes from 3900 on are zero: no
/// record ever reaches them.
pub proof fn lemma_page_sizing(db: &Database, k: usize)
    requires
        db.wf(),
        db.pages().contains_key(k),
    ensures
        db.pages()[k].len() == PAGE_SIZE,
        forall|j: int| USED_PAGE_BYTES <= j < PAGE_SIZE ==> db.pages()[k][j] == 0u8,
{
    assert forall|j: int| USED_PAGE_BYTES <= j < PAGE_SIZE implies db.pages()[k][j] == 0u8 by {
        assert(!in_use(k as int, j, db@.len() as int));
    }
}

/// Inserting an entity and then scanning yields the earlier entities in their order,
/// followed by the inserted one.
pub proof fn lemma_insert_then_scan(
    before: &Database,
    after: &Database,
    e: &Entity,
    rows: &Vec<Entity>,
)
    requires
        after@ == before@.push(e@),
        rows@.len() == after@.len(),
        forall|i: int| 0 <= i < rows@.len() ==> #[trigger] rows@[i]@ == after@[i],
    ensures
        rows@.len() == before@.len() + 1,
        rows@.last()@ == e@,
        forall|i: int| 0 <= i < before@.len() ==> #[trigger] rows@[i]@ == before@[i],
{
    assert(rows@[rows@.len() - 1]@ == after@[before@.len() as int]);
    assert forall|i: int| 0 <= i < before@.len() implies #[trigger] rows@[i]@ == before@[i] by {
        assert(rows@[i]@ == after@[i]);
    }
}

/// The 300 bytes of `page` from `offset`.
fn copy_record(page: &Vec<u8>, offset: usize) -> (r: Vec<u8>)
    requires
        offset + RECORD_SIZE <= page.len(),
    ensures
        r@ == page@.subrange(offset as int, offset + RECORD_SIZE),
{
    let mut r: Vec<u8> = Vec::new();
    let mut j: usize = 0;
    while j < RECORD_SIZE
        invariant
            j <= RECORD_SIZE,
            offset + RECORD_SIZE <= page.len(),
            r@ == page@.subrange(offset as int, offset + j),
        decreases RECORD_SIZE - j,
    {
        r.push(page[offset + j]);
        j = j + 1;
        assert(r@ =~= page@.subrange(offset as int, offset + j));
    }
    r
}

} // verus!
