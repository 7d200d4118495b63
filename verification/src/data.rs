//! Repositories that keep their rows in memory.

use crate::biz::{
    admissible, by_creation, distinct_bill_ids, latest_page, Bill, BillRepo, StorageError, TagInfo,
    TagLevel, TagRepo,
};
use std::sync::Arc;
use vstd::prelude::*;

verus! {

/// What the repositories of one application share.
#[derive(Debug, Clone, Copy, PartialEq, Eq, Structural)]
pub struct Infra {
    /// The most rows that each repository takes. A repository that has
    /// reached it refuses every further write.
    pub capacity: usize,
}

impl Infra {
    /// Infrastructure whose repositories take as many rows as the machine
    /// can count.
    pub fn new() -> (r: Self)
        ensures
            r.capacity == usize::MAX,
    {
        Infra { capacity: usize::MAX }
    }
}

/// The failure of a repository that has no room left.
fn out_of_room() -> (e: StorageError)
    ensures
        e.detail@ == "repository is full"@,
{
    StorageError { detail: "repository is full".to_string() }
}

/// `a` stands before `b` where bills are listed newest first: it was
/// created later, or in the same second and written later.
pub open spec fn newer(a: Bill, b: Bill) -> bool {
    a.create_at_sec > b.create_at_sec || (a.create_at_sec == b.create_at_sec && a.id > b.id)
}

/// `bills` is the whole of one ledger out of `stored`, newest first. There
/// is at most one such listing.
pub open spec fn ledger_listing(stored: Seq<Bill>, user_id: u64, book_id: u64, bills: Seq<Bill>) -> bool {
    &&& forall|b: Bill|
        #![trigger bills.contains(b)]
        #![trigger stored.contains(b)]
        bills.contains(b) <==> stored.contains(b) && b.belongs_to(user_id, book_id)
    &&& runs_newest_first(bills)
}

/// `bills` runs newest first without a tie.
pub open spec fn runs_newest_first(bills: Seq<Bill>) -> bool {
    forall|i: int, j: int|
        #![trigger bills[i], bills[j]]
        0 <= i < j < bills.len() ==> newer(bills[i], bills[j])
}

/// Two listings that run newest first and hold the same bills are one and
/// the same listing: the order leaves no choice.
pub proof fn lemma_newest_first_unique(a: Seq<Bill>, b: Seq<Bill>)
    requires
        runs_newest_first(a),
        runs_newest_first(b),
        forall|x: Bill|
            #![trigger a.contains(x)]
            #![trigger b.contains(x)]
            a.contains(x) <==> b.contains(x),
    ensures
        a == b,
    decreases a.len(),
{
    if a.len() == 0 {
        if b.len() > 0 {
            assert(b.contains(b[0]));
        }
        assert(a =~= b);
    } else {
        assert(a.contains(a[0]));
        let j = choose|j: int| 0 <= j < b.len() && b[j] == a[0];
        assert(b.contains(b[0]));
        let i = choose|i: int| 0 <= i < a.len() && a[i] == b[0];
        if j > 0 {
            assert(newer(b[0], b[j]));
            if i > 0 {
                assert(newer(a[0], a[i]));
            }
        }
        assert(a[0] == b[0]);
        let ra = a.drop_first();
        let rb = b.drop_first();
        assert forall|x: Bill| ra.contains(x) <==> rb.contains(x) by {
            if ra.contains(x) {
                let m = choose|m: int| 0 <= m < ra.len() && ra[m] == x;
                assert(a[m + 1] == x);
                assert(newer(a[0], a[m + 1]));
                assert(a.contains(x));
                let t = choose|t: int| 0 <= t < b.len() && b[t] == x;
                assert(rb[t - 1] == x);
            }
            if rb.contains(x) {
                let m = choose|m: int| 0 <= m < rb.len() && rb[m] == x;
                assert(b[m + 1] == x);
                assert(newer(b[0], b[m + 1]));
                assert(b.contains(x));
                let t = choose|t: int| 0 <= t < a.len() && a[t] == x;
                assert(ra[t - 1] == x);
            }
        }
        assert forall|p: int, q: int| 0 <= p < q < ra.len() implies newer(ra[p], ra[q]) by {
            assert(newer(a[p + 1], a[q + 1]));
        }
        assert forall|p: int, q: int| 0 <= p < q < rb.len() implies newer(rb[p], rb[q]) by {
            assert(newer(b[p + 1], b[q + 1]));
        }
        lemma_newest_first_unique(ra, rb);
        assert(a =~= seq![a[0]] + ra);
        assert(b =~= seq![b[0]] + rb);
    }
}

/// A ledger has one listing and no other.
pub proof fn lemma_ledger_listing_unique(
    stored: Seq<Bill>,
    user_id: u64,
    book_id: u64,
    a: Seq<Bill>,
    b: Seq<Bill>,
)
    requires
        ledger_listing(stored, user_id, book_id, a),
        ledger_listing(stored, user_id, book_id, b),
    ensures
        a == b,
{
    lemma_newest_first_unique(a, b);
}

/// A bill that goes in behind the bills created later than it, and that was
/// written after all the others, leaves the listing in order.
proof fn lemma_insert_keeps_order(before: Seq<Bill>, p: int, bill: Bill)
    requires
        runs_newest_first(before),
        0 <= p <= before.len(),
        forall|i: int| 0 <= i < before.len() ==> (#[trigger] before[i]).id < bill.id,
        forall|i: int| 0 <= i < p ==> (#[trigger] before[i]).create_at_sec > bill.create_at_sec,
        p < before.len() ==> before[p].create_at_sec <= bill.create_at_sec,
    ensures
        runs_newest_first(before.insert(p, bill)),
{
    let after = before.insert(p, bill);
    before.insert_ensures(p, bill);
    assert forall|i: int, j: int| 0 <= i < j < after.len() implies newer(after[i], after[j]) by {
        if j < p {
            assert(after[i] == before[i] && after[j] == before[j]);
        } else if j == p {
            assert(after[i] == before[i] && after[j] == bill);
        } else if i < p {
            assert(after[i] == before[i] && after[j] == before[j - 1]);
        } else if i == p {
            assert(after[i] == bill && after[j] == before[j - 1]);
            if j - 1 > p {
                assert(newer(before[p], before[j - 1]));
            }
        } else {
            assert(after[i] == before[i - 1] && after[j] == before[j - 1]);
        }
    }
}

/// After a bill has gone in, the listing holds what it held, and the bill.
proof fn lemma_insert_members(before: Seq<Bill>, p: int, bill: Bill)
    requires
        0 <= p <= before.len(),
    ensures
        forall|b: Bill|
            #![trigger before.insert(p, bill).contains(b)]
            #![trigger before.contains(b)]
            before.insert(p, bill).contains(b) <==> before.contains(b) || b == bill,
        before.insert(p, bill).contains(bill),
{
    let after = before.insert(p, bill);
    before.insert_ensures(p, bill);
    assert forall|b: Bill| after.contains(b) <==> before.contains(b) || b == bill by {
        if after.contains(b) && b != bill {
            let i = choose|i: int| 0 <= i < after.len() && after[i] == b;
            if i < p {
                assert(before[i] == b);
            } else {
                assert(before[i - 1] == b);
            }
        }
        if before.contains(b) {
            let a = choose|a: int| 0 <= a < before.len() && before[a] == b;
            if a < p {
                assert(after[a] == b);
            } else {
                assert(after[a + 1] == b);
            }
        }
        if b == bill {
            assert(after[p] == b);
        }
    }
}

/// Puts a bill that was written after all of `out` into its place among
/// them: behind the bills created later than it, before all others.
fn place(out: &mut Vec<Bill>, bill: Bill)
    requires
        runs_newest_first(old(out)@),
        forall|i: int| 0 <= i < old(out)@.len() ==> (#[trigger] old(out)@[i]).id < bill.id,
    ensures
        runs_newest_first(final(out)@),
        forall|b: Bill|
            #![trigger final(out)@.contains(b)]
            #![trigger old(out)@.contains(b)]
            final(out)@.contains(b) <==> old(out)@.contains(b) || b == bill,
        final(out)@.contains(bill),
{
    let mut p: usize = 0;
    while p < out.len() && out[p].create_at_sec > bill.create_at_sec
        invariant
            out@ == old(out)@,
            p <= out@.len(),
            forall|i: int| 0 <= i < p ==> (#[trigger] out@[i]).create_at_sec > bill.create_at_sec,
        decreases out@.len() - p,
    {
        p += 1;
    }
    proof {
        lemma_insert_keeps_order(out@, p as int, bill);
        lemma_insert_members(out@, p as int, bill);
    }
    out.insert(p, bill);
}

/// One more stored bill extends the listing of a ledger by itself where it
/// belongs to the ledger, and by nothing where it does not.
proof fn lemma_listing_grows(
    seen: Seq<Bill>,
    user_id: u64,
    book_id: u64,
    before: Seq<Bill>,
    bill: Bill,
    after: Seq<Bill>,
)
    requires
        ledger_listing(seen, user_id, book_id, before),
        runs_newest_first(after),
        bill.belongs_to(user_id, book_id) ==> after.contains(bill) && forall|b: Bill|
            #![trigger after.contains(b)]
            #![trigger before.contains(b)]
            after.contains(b) <==> before.contains(b) || b == bill,
        !bill.belongs_to(user_id, book_id) ==> after == before,
    ensures
        ledger_listing(seen.push(bill), user_id, book_id, after),
{
    let next = seen.push(bill);
    assert forall|b: Bill|
        after.contains(b) <==> next.contains(b) && b.belongs_to(user_id, book_id) by {
        if next.contains(b) {
            let m = choose|m: int| 0 <= m < next.len() && next[m] == b;
            if m < seen.len() {
                assert(seen[m] == b);
            }
        }
        if seen.contains(b) {
            let m = choose|m: int| 0 <= m < seen.len() && seen[m] == b;
            assert(next[m] == b);
        }
        assert(next[seen.len() as int] == bill);
    }
}

/// A whole ledger listed newest first is a page of its latest bills, and it
/// runs by creation time without ever stepping forward.
pub proof fn lemma_listing_is_latest_page(
    stored: Seq<Bill>,
    user_id: u64,
    book_id: u64,
    bills: Seq<Bill>,
)
    requires
        ledger_listing(stored, user_id, book_id, bills),
    ensures
        latest_page(stored, user_id, book_id, bills),
        by_creation(bills, true),
{
    assert forall|i: int| 0 <= i < bills.len() implies stored.contains(#[trigger] bills[i])
        && bills[i].belongs_to(user_id, book_id) by {
        assert(bills.contains(bills[i]));
    }
    assert forall|k: int, i: int|
        0 <= k < stored.len() && 0 <= i < bills.len() && (#[trigger] stored[k]).belongs_to(
            user_id,
            book_id,
        ) && !bills.contains(stored[k]) implies stored[k].create_at_sec <= (
    #[trigger] bills[i]).create_at_sec by {
        assert(stored.contains(stored[k]));
    }
    assert forall|i: int, j: int| 0 <= i < j < bills.len() implies bills[i].create_at_sec
        >= bills[j].create_at_sec by {
        assert(newer(bills[i], bills[j]));
    }
}

/// What the in-memory bill repository keeps true of its rows: the bill
/// written as the n-th has the identifier n.
pub open spec fn sound_bills(rows: Seq<Bill>) -> bool {
    forall|k: int| 0 <= k < rows.len() ==> (#[trigger] rows[k]).id == k + 1
}

/// Bills that are numbered by their place all have an identifier, and no two
/// of them the same.
pub proof fn lemma_sound_bills_distinct(rows: Seq<Bill>)
    requires
        sound_bills(rows),
    ensures
        distinct_bill_ids(rows),
        forall|k: int| 0 <= k < rows.len() ==> (#[trigger] rows[k]).id != 0,
{
}

/// Bills in memory, in the order in which they were written.
#[derive(Debug)]
pub struct BillRepoImpl {
    infra: Arc<Infra>,
    rows: Vec<Bill>,
}

impl View for BillRepoImpl {
    type V = Seq<Bill>;

    closed spec fn view(&self) -> Seq<Bill> {
        self.rows@
    }
}

impl BillRepoImpl {
    #[verifier::type_invariant]
    spec fn inv(self) -> bool {
        &&& self.rows@.len() <= self.infra.capacity
        &&& sound_bills(self.rows@)
    }

    /// The most bills that this repository takes.
    pub closed spec fn capacity(&self) -> nat {
        self.infra.capacity as nat
    }

    /// An empty repository on this infrastructure.
    pub fn new(infra: Arc<Infra>) -> (r: Self)
        ensures
            r@ == Seq::<Bill>::empty(),
            r.capacity() == infra.capacity,
    {
        BillRepoImpl { infra, rows: Vec::new() }
    }
}

impl BillRepo for BillRepoImpl {
    open spec fn stored(&self) -> Seq<Bill> {
        self@
    }

    open spec fn newest_first() -> bool {
        true
    }

    open spec fn must_accept(&self, bill: Bill) -> bool {
        self@.len() < self.capacity()
    }

    open spec fn must_refuse(&self, bill: Bill) -> bool {
        self@.len() >= self.capacity()
    }

    open spec fn carries_on(&self, earlier: &Self) -> bool {
        self.capacity() == earlier.capacity()
    }

    /// Succeeds exactly while there is room. The identifier is the bill's
    /// place in the order of writing, counted from 1. On failure the bill
    /// has not changed.
    fn create(&mut self, bill: &mut Bill) -> (r: Result<(), StorageError>)
        ensures
            r is Ok <==> old(self)@.len() < old(self).capacity(),
            r is Ok ==> final(bill).id == old(self)@.len() + 1,
            r is Err ==> *final(bill) == *old(bill),
            r matches Err(e) ==> e.detail@ == "repository is full"@,
            sound_bills(final(self)@),
            final(self).capacity() == old(self).capacity(),
    {
        proof {
            use_type_invariant(&*self);
        }
        let n = self.rows.len();
        if n >= self.infra.capacity {
            return Err(out_of_room());
        }
        bill.id = n as u64 + 1;
        let mut rows: Vec<Bill> = Vec::new();
        std::mem::swap(&mut self.rows, &mut rows);
        rows.push(*bill);
        self.rows = rows;
        Ok(())
    }

    /// All or nothing: succeeds exactly when there is room for every bill,
    /// and on failure neither the store nor the bills have changed. The
    /// identifiers continue the order of writing.
    fn batch_create(&mut self, bills: &mut [Bill]) -> (r: Result<(), StorageError>)
        ensures
            r is Ok <==> old(self)@.len() + old(bills)@.len() <= old(self).capacity(),
            r matches Err(e) ==> e.detail@ == "repository is full"@,
            r is Ok ==> forall|i: int|
                0 <= i < old(bills)@.len() ==> (#[trigger] final(bills)@[i]).id == old(self)@.len()
                    + i + 1,
            r is Err ==> final(self)@ == old(self)@ && final(bills)@ == old(bills)@,
            sound_bills(final(self)@),
            final(self).capacity() == old(self).capacity(),
    {
        proof {
            use_type_invariant(&*self);
        }
        let n = bills.len();
        let base = self.rows.len();
        if n > self.infra.capacity - base {
            return Err(out_of_room());
        }
        let mut rows: Vec<Bill> = Vec::new();
        std::mem::swap(&mut self.rows, &mut rows);
        let mut i: usize = 0;
        while i < n
            invariant
                i <= n,
                n == bills@.len(),
                n == old(bills)@.len(),
                base == old(self)@.len(),
                base + n <= usize::MAX,
                rows@ == old(self)@ + bills@.take(i as int),
                sound_bills(old(self)@),
                forall|k: int| 0 <= k < i ==> (#[trigger] bills@[k]).persisted_from(old(bills)@[k]),
                forall|k: int| 0 <= k < i ==> (#[trigger] bills@[k]).id == base + k + 1,
                forall|k: int| i <= k < n ==> bills@[k] == old(bills)@[k],
            decreases n - i,
        {
            bills[i].id = (base + i) as u64 + 1;
            let bill = bills[i];
            rows.push(bill);
            proof {
                assert(bills@.take(i as int + 1) =~= bills@.take(i as int).push(bill));
            }
            i += 1;
        }
        proof {
            assert(bills@.take(n as int) =~= bills@);
        }
        self.rows = rows;
        Ok(())
    }

    /// Never fails, and lists the whole ledger: every stored bill of this
    /// user and book, newest first.
    fn get_latest(&self, user_id: u64, book_id: u64) -> (r: Result<Vec<Bill>, StorageError>)
        ensures
            r is Ok,
            r matches Ok(bills) ==> ledger_listing(self@, user_id, book_id, bills@),
            sound_bills(self@),
    {
        proof {
            use_type_invariant(self);
        }
        let mut out: Vec<Bill> = Vec::new();
        let n = self.rows.len();
        let mut k: usize = 0;
        while k < n
            invariant
                k <= n,
                n == self.rows@.len(),
                sound_bills(self.rows@),
                ledger_listing(self.rows@.take(k as int), user_id, book_id, out@),
            decreases n - k,
        {
            let bill = self.rows[k];
            let ghost seen = self.rows@.take(k as int);
            let ghost before = out@;
            if bill.user_id == user_id && bill.book_id == book_id {
                proof {
                    assert forall|i: int| 0 <= i < before.len() implies (#[trigger] before[i]).id
                        < bill.id by {
                        assert(before.contains(before[i]));
                        let m = choose|m: int| 0 <= m < seen.len() && seen[m] == before[i];
                        assert(seen[m] == self.rows@[m]);
                    }
                }
                place(&mut out, bill);
            }
            proof {
                assert(self.rows@.take(k as int + 1) =~= seen.push(bill));
                lemma_listing_grows(seen, user_id, book_id, before, bill, out@);
            }
            k += 1;
        }
        proof {
            assert(self.rows@.take(n as int) =~= self.rows@);
            lemma_listing_is_latest_page(self@, user_id, book_id, out@);
        }
        Ok(out)
    }
}

/// The failure of a tag repository that was handed a tag it may not store.
fn not_admissible() -> (e: StorageError)
    ensures
        e.detail@ == "tag is not admissible"@,
{
    StorageError { detail: "tag is not admissible".to_string() }
}

/// `tags` as the in-memory repository numbers them when `base` tags are
/// stored already: the identifiers run on from `base + 1`, and nothing else
/// changes.
pub open spec fn numbered(tags: Seq<TagInfo>, base: nat) -> Seq<TagInfo> {
    Seq::new(tags.len(), |k: int| TagInfo { id: (base + k + 1) as u64, ..tags[k] })
}

/// What the in-memory tag repository keeps true of its rows: the tag written
/// as the n-th has the identifier n, and each tag was admissible among those
/// written before it.
pub open spec fn sound_tags(rows: Seq<TagInfo>) -> bool {
    &&& forall|k: int| 0 <= k < rows.len() ==> (#[trigger] rows[k]).id == k + 1
    &&& forall|k: int| 0 <= k < rows.len() ==> admissible(rows.take(k), #[trigger] rows[k])
}

/// Sound rows stay sound when an admissible tag joins them under the next
/// identifier.
pub proof fn lemma_sound_tags_push(rows: Seq<TagInfo>, tag: TagInfo)
    requires
        sound_tags(rows),
        admissible(rows, tag),
        tag.id == rows.len() + 1,
    ensures
        sound_tags(rows.push(tag)),
{
    let next = rows.push(tag);
    assert forall|k: int| 0 <= k < next.len() implies admissible(
        next.take(k),
        #[trigger] next[k],
    ) by {
        if k < rows.len() {
            assert(next.take(k) =~= rows.take(k));
            assert(next[k] == rows[k]);
        } else {
            assert(next.take(k) =~= rows);
        }
    }
}

/// In sound rows no key and no identifier occurs twice.
pub proof fn lemma_sound_tags_distinct(rows: Seq<TagInfo>, i: int, j: int)
    requires
        sound_tags(rows),
        0 <= i < j < rows.len(),
    ensures
        rows[i].tag_key@ != rows[j].tag_key@,
        rows[i].id != rows[j].id,
        rows[i].id != 0,
        rows[j].id != 0,
{
    assert(admissible(rows.take(j), rows[j]));
    assert(rows.take(j)[i] == rows[i]);
}

/// In sound rows a primary tag names no parent, and a secondary tag names a
/// primary tag that was written before it.
pub proof fn lemma_sound_tags_hierarchy(rows: Seq<TagInfo>, j: int)
    requires
        sound_tags(rows),
        0 <= j < rows.len(),
    ensures
        rows[j].level == TagLevel::Lv1 ==> rows[j].parent_id is None,
        rows[j].level == TagLevel::Lv2 ==> rows[j].parent_id is Some && exists|k: int|
            0 <= k < j && (#[trigger] rows[k]).id == rows[j].parent_id->0 && rows[k].level
                == TagLevel::Lv1,
{
    let earlier = rows.take(j);
    assert(admissible(earlier, rows[j]));
    if rows[j].level == TagLevel::Lv2 {
        let p = rows[j].parent_id->0;
        let k = choose|k: int|
            0 <= k < earlier.len() && (#[trigger] earlier[k]).id == p && earlier[k].level
                == TagLevel::Lv1;
        assert(rows[k] == earlier[k]);
    }
}

/// Whether `tag` may join `rows`, decided by looking at them.
fn admits(rows: &Vec<TagInfo>, tag: &TagInfo) -> (ok: bool)
    requires
        forall|k: int| 0 <= k < rows@.len() ==> (#[trigger] rows@[k]).id == k + 1,
    ensures
        ok == admissible(rows@, *tag),
{
    let n = rows.len();
    let mut k: usize = 0;
    while k < n
        invariant
            k <= n,
            n == rows@.len(),
            forall|m: int| 0 <= m < k ==> (#[trigger] rows@[m]).tag_key@ != tag.tag_key@,
        decreases n - k,
    {
        if rows[k].tag_key == tag.tag_key {
            return false;
        }
        k += 1;
    }
    match tag.level {
        TagLevel::Lv1 => tag.parent_id.is_none(),
        TagLevel::Lv2 => match tag.parent_id {
            None => false,
            Some(p) => {
                if 1 <= p && p <= n as u64 {
                    let at = (p - 1) as usize;
                    let found = rows[at].level == TagLevel::Lv1;
                    proof {
                        if found {
                            assert(rows@[at as int].id == p);
                        }
                    }
                    found
                } else {
                    false
                }
            },
        },
    }
}

/// Tags in memory, in the order in which they were written. The tag written
/// as the n-th has the identifier n.
#[derive(Debug)]
pub struct TagRepoImpl {
    infra: Arc<Infra>,
    rows: Vec<TagInfo>,
}

impl View for TagRepoImpl {
    type V = Seq<TagInfo>;

    closed spec fn view(&self) -> Seq<TagInfo> {
        self.rows@
    }
}

impl TagRepoImpl {
    #[verifier::type_invariant]
    spec fn inv(self) -> bool {
        &&& self.rows@.len() <= self.infra.capacity
        &&& sound_tags(self.rows@)
    }

    /// The most tags that this repository takes.
    pub closed spec fn capacity(&self) -> nat {
        self.infra.capacity as nat
    }

    /// An empty repository on this infrastructure.
    pub fn new(infra: Arc<Infra>) -> (r: Self)
        ensures
            r@ == Seq::<TagInfo>::empty(),
            r.capacity() == infra.capacity,
    {
        TagRepoImpl { infra, rows: Vec::new() }
    }
}

impl TagRepo for TagRepoImpl {
    open spec fn stored(&self) -> Seq<TagInfo> {
        self@
    }

    /// Succeeds exactly where there is room and the tag is admissible. The
    /// identifier is the tag's place in the order of writing, counted from
    /// 1. On failure the tag has not changed.
    fn create(&mut self, tag: &mut TagInfo) -> (r: Result<(), StorageError>)
        ensures
            r is Ok <==> old(self)@.len() < old(self).capacity() && admissible(
                old(self)@,
                *old(tag),
            ),
            r is Ok ==> final(tag).id == old(self)@.len() + 1,
            r is Err ==> *final(tag) == *old(tag),
            r matches Err(e) ==> e.detail@ == if old(self)@.len() < old(self).capacity() {
                "tag is not admissible"@
            } else {
                "repository is full"@
            },
            sound_tags(final(self)@),
            final(self).capacity() == old(self).capacity(),
    {
        proof {
            use_type_invariant(&*self);
        }
        let n = self.rows.len();
        if n >= self.infra.capacity {
            return Err(out_of_room());
        }
        if !admits(&self.rows, tag) {
            return Err(not_admissible());
        }
        tag.id = n as u64 + 1;
        let row = tag.clone();
        proof {
            lemma_sound_tags_push(self.rows@, row);
        }
        let mut rows: Vec<TagInfo> = Vec::new();
        std::mem::swap(&mut self.rows, &mut rows);
        rows.push(row);
        self.rows = rows;
        Ok(())
    }

    /// All or nothing: succeeds exactly where there is room for every tag
    /// and each is admissible among the stored tags and those of the batch
    /// before it, numbered as they will be. On failure neither the store nor
    /// the tags have changed.
    fn batch_create(&mut self, tags: &mut [TagInfo]) -> (r: Result<(), StorageError>)
        ensures
            r is Ok <==> {
                &&& old(self)@.len() + old(tags)@.len() <= old(self).capacity()
                &&& forall|i: int|
                    0 <= i < old(tags)@.len() ==> admissible(
                        old(self)@ + numbered(old(tags)@, old(self)@.len()).take(i),
                        #[trigger] old(tags)@[i],
                    )
            },
            r is Ok ==> final(tags)@ == numbered(old(tags)@, old(self)@.len()),
            r is Err ==> final(self)@ == old(self)@ && final(tags)@ == old(tags)@,
            r matches Err(e) ==> e.detail@ == if old(self)@.len() + old(tags)@.len() <= old(
                self,
            ).capacity() {
                "tag is not admissible"@
            } else {
                "repository is full"@
            },
            sound_tags(final(self)@),
            final(self).capacity() == old(self).capacity(),
    {
        proof {
            use_type_invariant(&*self);
        }
        let n = tags.len();
        let base = self.rows.len();
        if n > self.infra.capacity - base {
            return Err(out_of_room());
        }
        let ghost planned = numbered(tags@, base as nat);
        let mut rows: Vec<TagInfo> = Vec::new();
        std::mem::swap(&mut self.rows, &mut rows);
        let mut i: usize = 0;
        while i < n
            invariant
                i <= n,
                n == tags@.len(),
                tags@ == old(tags)@,
                base == old(self)@.len(),
                base + n <= usize::MAX,
                planned == numbered(tags@, base as nat),
                rows@ == old(self)@ + planned.take(i as int),
                sound_tags(rows@),
                sound_tags(old(self)@),
                self.rows@ == Seq::<TagInfo>::empty(),
                self.infra == old(self).infra,
                base + n <= self.infra.capacity,
                forall|k: int|
                    0 <= k < i ==> admissible(
                        old(self)@ + planned.take(k),
                        #[trigger] tags@[k],
                    ),
            decreases n - i,
        {
            if !admits(&rows, &tags[i]) {
                rows.truncate(base);
                proof {
                    assert(rows@ =~= old(self)@);
                }
                self.rows = rows;
                return Err(not_admissible());
            }
            let mut row = tags[i].clone();
            row.id = (base + i) as u64 + 1;
            proof {
                assert(row == planned[i as int]);
                assert(admissible(rows@, row));
                lemma_sound_tags_push(rows@, row);
                assert(planned.take(i as int + 1) =~= planned.take(i as int).push(row));
                assert(rows@.push(row) =~= old(self)@ + planned.take(i as int + 1));
            }
            rows.push(row);
            i += 1;
        }
        proof {
            assert(planned.take(n as int) =~= planned);
        }
        let mut j: usize = 0;
        while j < n
            invariant
                j <= n,
                n == tags@.len(),
                n == old(tags)@.len(),
                base + n <= usize::MAX,
                planned == numbered(old(tags)@, base as nat),
                forall|k: int| 0 <= k < j ==> tags@[k] == planned[k],
                forall|k: int| j <= k < n ==> tags@[k] == old(tags)@[k],
            decreases n - j,
        {
            tags[j].id = (base + j) as u64 + 1;
            j += 1;
        }
        proof {
            assert(tags@ =~= planned);
        }
        self.rows = rows;
        Ok(())
    }
}

} // verus!
