//! Domain entities, the storage contracts, and the ledger service.

use vstd::prelude::*;

verus! {

/// A signed monetary amount, carried as the bit pattern of an IEEE 754
/// double. The ledger never computes with it: the pattern goes from request
/// to storage to response unchanged, so nothing is rounded on the way.
#[derive(Debug, Clone, Copy, PartialEq, Eq, Structural)]
pub struct Amount {
    pub bits: u64,
}

/// One recorded transaction.
#[derive(Debug, Clone, Copy, PartialEq, Eq, Structural)]
pub struct Bill {
    /// Assigned by storage; 0 until the bill has been persisted.
    pub id: u64,
    pub user_id: u64,
    pub book_id: u64,
    pub amount: Amount,
    pub tag_id_lv1: u64,
    pub tag_id_lv2: u64,
    /// Seconds since the Unix epoch.
    pub create_at_sec: i64,
    /// Seconds since the Unix epoch.
    pub update_at_sec: i64,
}

impl Bill {
    /// The bill as the ledger service hands it to storage: no identifier
    /// yet, both timestamps at `now`, every other field as supplied.
    pub open spec fn draft(
        now: i64,
        user_id: u64,
        book_id: u64,
        amount: Amount,
        tag_id_lv1: u64,
        tag_id_lv2: u64,
    ) -> Bill {
        Bill {
            id: 0,
            user_id,
            book_id,
            amount,
            tag_id_lv1,
            tag_id_lv2,
            create_at_sec: now,
            update_at_sec: now,
        }
    }

    /// A bill that storage has not seen yet: the draft at the time `now`.
    pub fn new(
        now: i64,
        user_id: u64,
        book_id: u64,
        amount: Amount,
        tag_id_lv1: u64,
        tag_id_lv2: u64,
    ) -> (bill: Bill)
        ensures
            bill == Bill::draft(now, user_id, book_id, amount, tag_id_lv1, tag_id_lv2),
    {
        Bill {
            id: 0,
            user_id,
            book_id,
            amount,
            tag_id_lv1,
            tag_id_lv2,
            create_at_sec: now,
            update_at_sec: now,
        }
    }

    /// `self` is `before` as storage hands it back: a nonzero identifier
    /// assigned, nothing else touched.
    pub open spec fn persisted_from(self, before: Bill) -> bool {
        &&& self.id != 0
        &&& self == (Bill { id: self.id, ..before })
    }

    /// The bill belongs to this user's ledger.
    pub open spec fn belongs_to(self, user_id: u64, book_id: u64) -> bool {
        self.user_id == user_id && self.book_id == book_id
    }
}

/// The one failure that a repository reports. `detail` is for people: the
/// storage contracts do not tell one failure from another.
#[derive(Debug, PartialEq, Eq)]
pub struct StorageError {
    pub detail: String,
}

impl Clone for StorageError {
    fn clone(&self) -> (r: Self)
        ensures
            r == *self,
    {
        StorageError { detail: self.detail.clone() }
    }
}

/// How deep a tag sits in the two-level hierarchy.
#[derive(Debug, Clone, Copy, PartialEq, Eq, Structural)]
pub enum TagLevel {
    /// A primary category.
    Lv1,
    /// A secondary category, which refines a primary one.
    Lv2,
}

/// A category definition. The type itself admits any pairing of level and
/// parent; which pairings may be stored is the tag repository's rule, stated
/// by `admissible`.
#[derive(Debug, PartialEq, Eq)]
pub struct TagInfo {
    /// Assigned by storage.
    pub id: u64,
    /// The stable machine key; no two stored tags share one.
    pub tag_key: String,
    pub level: TagLevel,
    /// The identifier of the primary tag that a secondary tag refines.
    pub parent_id: Option<u64>,
    pub label_en: String,
    pub label_zh: String,
    /// A reference to the tag's icon.
    pub avatar: String,
    /// Seconds since the Unix epoch.
    pub create_at_sec: i64,
    /// Seconds since the Unix epoch.
    pub update_at_sec: i64,
}

impl Clone for TagInfo {
    fn clone(&self) -> (r: Self)
        ensures
            r == *self,
    {
        TagInfo {
            id: self.id,
            tag_key: self.tag_key.clone(),
            level: self.level,
            parent_id: self.parent_id,
            label_en: self.label_en.clone(),
            label_zh: self.label_zh.clone(),
            avatar: self.avatar.clone(),
            create_at_sec: self.create_at_sec,
            update_at_sec: self.update_at_sec,
        }
    }
}

impl TagInfo {
    /// `self` is `before` as storage hands it back: a nonzero identifier
    /// assigned, nothing else touched.
    pub open spec fn persisted_from(self, before: TagInfo) -> bool {
        &&& self.id != 0
        &&& self == (TagInfo { id: self.id, ..before })
    }
}

/// Whether `tag` may join the tags in `stored`: its key is not taken, a
/// primary tag names no parent, and a secondary tag names as its parent a
/// stored primary tag.
pub open spec fn admissible(stored: Seq<TagInfo>, tag: TagInfo) -> bool {
    &&& forall|k: int| 0 <= k < stored.len() ==> (#[trigger] stored[k]).tag_key@ != tag.tag_key@
    &&& match tag.level {
        TagLevel::Lv1 => tag.parent_id is None,
        TagLevel::Lv2 => tag.parent_id matches Some(p) && exists|k: int|
            0 <= k < stored.len() && (#[trigger] stored[k]).id == p && stored[k].level
                == TagLevel::Lv1,
    }
}

/// No two of these tags share an identifier.
pub open spec fn distinct_tag_ids(tags: Seq<TagInfo>) -> bool {
    forall|i: int, j: int|
        #![trigger tags[i], tags[j]]
        0 <= i < j < tags.len() ==> tags[i].id != tags[j].id
}

/// No two of these bills share an identifier.
pub open spec fn distinct_bill_ids(bills: Seq<Bill>) -> bool {
    forall|i: int, j: int|
        #![trigger bills[i], bills[j]]
        0 <= i < j < bills.len() ==> bills[i].id != bills[j].id
}

/// `bills` runs by creation time in one direction: never forward in time
/// when `newest_first`, never backward otherwise.
pub open spec fn by_creation(bills: Seq<Bill>, newest_first: bool) -> bool {
    forall|i: int, j: int|
        #![trigger bills[i], bills[j]]
        0 <= i < j < bills.len() ==> if newest_first {
            bills[i].create_at_sec >= bills[j].create_at_sec
        } else {
            bills[i].create_at_sec <= bills[j].create_at_sec
        }
}

/// `page` is a listing of the latest bills of one ledger out of `stored`:
/// every entry is a stored bill of that ledger, and no stored bill of the
/// ledger that the page leaves out was created after one that it holds.
pub open spec fn latest_page(stored: Seq<Bill>, user_id: u64, book_id: u64, page: Seq<Bill>) -> bool {
    &&& forall|i: int|
        0 <= i < page.len() ==> stored.contains(#[trigger] page[i]) && page[i].belongs_to(
            user_id,
            book_id,
        )
    &&& forall|k: int, i: int|
        0 <= k < stored.len() && 0 <= i < page.len() && (#[trigger] stored[k]).belongs_to(
            user_id,
            book_id,
        ) && !page.contains(stored[k]) ==> stored[k].create_at_sec <= (#[trigger] page[i]).create_at_sec
}

/// Storage of bills. Whoever implements it is the only writer of durable
/// state; the ledger service goes through it and nowhere else.
pub trait BillRepo: Sized {
    /// The bills persisted so far, oldest write first.
    spec fn stored(&self) -> Seq<Bill>;

    /// The direction in which this repository lists bills: newest first, or
    /// oldest first. It is fixed for the implementation.
    spec fn newest_first() -> bool;

    /// Whether the repository, as it stands, is bound to persist `bill` when
    /// asked. An implementation that can fail for reasons of its own, such
    /// as a lost connection, is never bound.
    spec fn must_accept(&self, bill: Bill) -> bool;

    /// Whether the repository, as it stands, is bound to refuse `bill`.
    spec fn must_refuse(&self, bill: Bill) -> bool;

    /// Whether `self` carries on from `earlier`: what a write leaves of the
    /// repository as it was, the store apart. What that is, the
    /// implementation says; it is what lets a caller tell, after a write,
    /// what the repository is bound to do next.
    spec fn carries_on(&self, earlier: &Self) -> bool;

    /// Persists one bill. On success the bill carries the identifier that
    /// storage gave it and is otherwise untouched, and it is the newest
    /// entry of the store. A failure leaves no trace: the repository is as
    /// it was. Where the repository is bound either way, it does as it is
    /// bound.
    fn create(&mut self, bill: &mut Bill) -> (r: Result<(), StorageError>)
        ensures
            old(self).must_accept(*old(bill)) ==> r is Ok,
            old(self).must_refuse(*old(bill)) ==> r is Err,
            r is Ok ==> final(bill).persisted_from(*old(bill)),
            r is Ok ==> final(self).stored() == old(self).stored().push(*final(bill)),
            r is Ok ==> final(self).carries_on(old(self)),
            r is Err ==> *final(self) == *old(self),
    ;

    /// Persists a run of bills. On success every one of them carries its own
    /// nonzero identifier and is otherwise untouched, and the store has
    /// grown by them in order. Nothing is promised of the store after a
    /// failure: an implementation may have written some of them.
    fn batch_create(&mut self, bills: &mut [Bill]) -> (r: Result<(), StorageError>)
        ensures
            final(bills)@.len() == old(bills)@.len(),
            r is Ok ==> forall|i: int|
                0 <= i < old(bills)@.len() ==> (#[trigger] final(bills)@[i]).persisted_from(
                    old(bills)@[i],
                ),
            r is Ok ==> distinct_bill_ids(final(bills)@),
            r is Ok ==> final(self).stored() == old(self).stored() + final(bills)@,
    ;

    /// Lists the latest bills of one user's ledger, ordered by creation time
    /// in the repository's direction. How many it lists is up to the
    /// implementation.
    fn get_latest(&self, user_id: u64, book_id: u64) -> (r: Result<Vec<Bill>, StorageError>)
        ensures
            r matches Ok(bills) ==> latest_page(self.stored(), user_id, book_id, bills@),
            r matches Ok(bills) ==> by_creation(bills@, Self::newest_first()),
    ;
}

/// Storage of tags. It is the repository, not the `TagInfo` type, that keeps
/// keys unique and the hierarchy sound: it accepts a tag only where
/// `admissible` holds of it and of what is stored.
pub trait TagRepo: Sized {
    /// The tags persisted so far, oldest write first.
    spec fn stored(&self) -> Seq<TagInfo>;

    /// Persists one tag. On success the tag was admissible, carries the
    /// identifier that storage gave it and is otherwise untouched, and it is
    /// the newest entry of the store. A failure leaves no trace: the
    /// repository is as it was.
    fn create(&mut self, tag: &mut TagInfo) -> (r: Result<(), StorageError>)
        ensures
            r is Ok ==> admissible(old(self).stored(), *old(tag)),
            r is Ok ==> final(tag).persisted_from(*old(tag)),
            r is Ok ==> final(self).stored() == old(self).stored().push(*final(tag)),
            r is Err ==> *final(self) == *old(self),
    ;

    /// Persists a run of tags, one after another. On success every one of
    /// them was admissible when its turn came, carries its own nonzero
    /// identifier and is otherwise untouched, and the store has grown by
    /// them in order. Nothing is promised of the store after a failure: an
    /// implementation may have written some of them.
    fn batch_create(&mut self, tags: &mut [TagInfo]) -> (r: Result<(), StorageError>)
        ensures
            final(tags)@.len() == old(tags)@.len(),
            r is Ok ==> forall|i: int|
                0 <= i < old(tags)@.len() ==> admissible(
                    old(self).stored() + final(tags)@.take(i),
                    #[trigger] old(tags)@[i],
                ),
            r is Ok ==> forall|i: int|
                0 <= i < old(tags)@.len() ==> (#[trigger] final(tags)@[i]).persisted_from(
                    old(tags)@[i],
                ),
            r is Ok ==> distinct_tag_ids(final(tags)@),
            r is Ok ==> final(self).stored() == old(self).stored() + final(tags)@,
    ;
}

/// Reads the wall clock: `std::time::SystemTime::now`, which chrono turns
/// into a `DateTime<Utc>`, and of that moment the `timestamp`, which chrono
/// documents as the non-leap seconds since the start of 1970 in UTC; a
/// moment before then counts as a negative number. The value depends on
/// the moment of the call, so nothing is promised of it.
#[verifier::external_body]
fn now_sec() -> i64 {
    chrono::DateTime::<chrono::Utc>::from(std::time::SystemTime::now()).timestamp()
}

/// What `create_bill` returns once storage has answered: the bill as storage
/// left it where the write succeeded, and storage's own error, untouched,
/// where it failed.
pub open spec fn settled(bill: Bill, outcome: Result<(), StorageError>) -> Result<
    Bill,
    StorageError,
> {
    match outcome {
        Ok(_) => Ok(bill),
        Err(e) => Err(e),
    }
}

/// Makes the result of `create_bill` out of the bill and storage's answer.
/// There is no retry and no recovery.
pub fn settle(bill: Bill, outcome: Result<(), StorageError>) -> (r: Result<Bill, StorageError>)
    ensures
        r == settled(bill, outcome),
{
    match outcome {
        Ok(()) => Ok(bill),
        Err(e) => Err(e),
    }
}

/// The ledger service. It holds the repositories and no other state.
#[derive(Debug)]
pub struct BillBiz<B, T> where B: BillRepo, T: TagRepo {
    /// Bill repository.
    pub br: B,
    /// Tag repository.
    pub tr: T,
}

impl<B, T> BillBiz<B, T> where B: BillRepo, T: TagRepo {
    pub fn new(br: B, tr: T) -> (r: Self)
        ensures
            r.br == br,
            r.tr == tr,
    {
        BillBiz { br, tr }
    }

    /// Records one transaction at the time `now`: builds the draft, asks the
    /// bill repository once to persist it, and returns what `settle` makes
    /// of the answer. Whether storage accepts is storage's decision, and
    /// where storage is bound the result is too. On success exactly this one
    /// bill has been written; on failure the service is as it was. The tag
    /// repository is not touched either way.
    pub fn create_bill_at(
        &mut self,
        now: i64,
        user_id: u64,
        book_id: u64,
        amount: Amount,
        tag_id_lv1: u64,
        tag_id_lv2: u64,
    ) -> (r: Result<Bill, StorageError>)
        ensures
            old(self).br.must_accept(Bill::draft(now, user_id, book_id, amount, tag_id_lv1, tag_id_lv2))
                ==> r is Ok,
            old(self).br.must_refuse(Bill::draft(now, user_id, book_id, amount, tag_id_lv1, tag_id_lv2))
                ==> r is Err,
            r matches Ok(bill) ==> bill.persisted_from(
                Bill::draft(now, user_id, book_id, amount, tag_id_lv1, tag_id_lv2),
            ),
            r matches Ok(bill) ==> final(self).br.stored() == old(self).br.stored().push(bill),
            r is Ok ==> final(self).br.carries_on(&old(self).br),
            r is Err ==> *final(self) == *old(self),
            final(self).tr == old(self).tr,
    {
        let mut bill = Bill::new(now, user_id, book_id, amount, tag_id_lv1, tag_id_lv2);
        let outcome = self.br.create(&mut bill);
        settle(bill, outcome)
    }

    /// Records one transaction at the current time of the wall clock. What
    /// the clock says is not known beforehand; whatever it says, a bill that
    /// comes back carries it in both timestamps.
    pub fn create_bill(
        &mut self,
        user_id: u64,
        book_id: u64,
        amount: Amount,
        tag_id_lv1: u64,
        tag_id_lv2: u64,
    ) -> (r: Result<Bill, StorageError>)
        ensures
            (forall|now: i64| #[trigger]
                old(self).br.must_accept(
                    Bill::draft(now, user_id, book_id, amount, tag_id_lv1, tag_id_lv2),
                )) ==> r is Ok,
            (forall|now: i64| #[trigger]
                old(self).br.must_refuse(
                    Bill::draft(now, user_id, book_id, amount, tag_id_lv1, tag_id_lv2),
                )) ==> r is Err,
            r matches Ok(bill) ==> bill.persisted_from(
                Bill::draft(bill.create_at_sec, user_id, book_id, amount, tag_id_lv1, tag_id_lv2),
            ),
            r matches Ok(bill) ==> final(self).br.stored() == old(self).br.stored().push(bill),
            r is Ok ==> final(self).br.carries_on(&old(self).br),
            r is Err ==> *final(self) == *old(self),
            final(self).tr == old(self).tr,
    {
        let now = now_sec();
        self.create_bill_at(now, user_id, book_id, amount, tag_id_lv1, tag_id_lv2)
    }
}

} // verus!
