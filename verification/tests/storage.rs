use hub::biz::{Amount, Bill, BillRepo, StorageError, TagInfo, TagLevel, TagRepo};
use hub::data::{BillRepoImpl, Infra, TagRepoImpl};
use std::sync::Arc;

fn bill(user_id: u64, book_id: u64, value: f64, at: i64) -> Bill {
    Bill {
        id: 0,
        user_id,
        book_id,
        amount: Amount { bits: value.to_bits() },
        tag_id_lv1: 1,
        tag_id_lv2: 2,
        create_at_sec: at,
        update_at_sec: at,
    }
}

fn tag(key: &str, level: TagLevel, parent_id: Option<u64>) -> TagInfo {
    TagInfo {
        id: 0,
        tag_key: String::from(key),
        level,
        parent_id,
        label_en: format!("{} (en)", key),
        label_zh: format!("{} (zh)", key),
        avatar: format!("icons/{}.png", key),
        create_at_sec: 1_700_000_000,
        update_at_sec: 1_700_000_000,
    }
}

fn bills_with_room(capacity: usize) -> BillRepoImpl {
    BillRepoImpl::new(Arc::new(Infra { capacity }))
}

fn tags_with_room(capacity: usize) -> TagRepoImpl {
    TagRepoImpl::new(Arc::new(Infra { capacity }))
}

#[test]
fn infra_new_has_room_for_all_that_can_be_counted() {
    assert_eq!(Infra::new().capacity, usize::MAX);
    assert_eq!(Infra::new(), Infra { capacity: usize::MAX });
}

#[test]
fn bill_repo_starts_empty() {
    let repo = BillRepoImpl::new(Arc::new(Infra::new()));
    assert_eq!(repo.get_latest(1, 1), Ok(Vec::new()));
}

#[test]
fn bill_create_assigns_identifiers_in_order_of_writing() {
    let mut repo = bills_with_room(usize::MAX);
    for n in 1..=5u64 {
        let mut b = bill(1, 1, 1.0, 10);
        assert_eq!(repo.create(&mut b), Ok(()));
        assert_eq!(b.id, n);
    }
}

#[test]
fn bill_create_touches_nothing_but_the_identifier() {
    let mut repo = bills_with_room(usize::MAX);
    let before = bill(7, 8, -3.25, 1234);
    let mut after = before;
    repo.create(&mut after).unwrap();
    assert_eq!(after, Bill { id: 1, ..before });
}

#[test]
fn bill_create_replaces_an_identifier_that_was_set() {
    let mut repo = bills_with_room(usize::MAX);
    let mut b = Bill { id: 99, ..bill(1, 1, 1.0, 1) };
    repo.create(&mut b).unwrap();
    assert_eq!(b.id, 1);
}

#[test]
fn bill_create_fails_when_full_and_leaves_all_as_it_was() {
    let mut repo = bills_with_room(1);
    let mut first = bill(1, 1, 1.0, 1);
    repo.create(&mut first).unwrap();
    let mut second = bill(1, 1, 2.0, 2);
    assert_eq!(
        repo.create(&mut second),
        Err(StorageError { detail: String::from("repository is full") })
    );
    assert_eq!(second, bill(1, 1, 2.0, 2));
    assert_eq!(repo.get_latest(1, 1), Ok(vec![first]));
}

#[test]
fn bill_batch_create_assigns_distinct_nonzero_identifiers() {
    let mut repo = bills_with_room(usize::MAX);
    let mut head = bill(9, 9, 0.5, 1);
    repo.create(&mut head).unwrap();
    let before: Vec<Bill> = (0..50).map(|n| bill(n % 3, n % 2, n as f64, n as i64)).collect();
    let mut batch = before.clone();
    assert_eq!(repo.batch_create(&mut batch), Ok(()));
    assert_eq!(batch.len(), 50);
    for (n, b) in batch.iter().enumerate() {
        assert_ne!(b.id, 0);
        assert_eq!(b.id, n as u64 + 2);
        assert_eq!(*b, Bill { id: b.id, ..before[n] });
        for later in &batch[n + 1..] {
            assert_ne!(b.id, later.id);
        }
    }
}

#[test]
fn bill_batch_create_of_nothing_succeeds() {
    let mut repo = bills_with_room(0);
    let mut batch: Vec<Bill> = Vec::new();
    assert_eq!(repo.batch_create(&mut batch), Ok(()));
}

#[test]
fn bill_batch_create_is_all_or_nothing() {
    let mut repo = bills_with_room(3);
    let mut head = bill(1, 1, 1.0, 1);
    repo.create(&mut head).unwrap();
    let before = vec![bill(1, 1, 2.0, 2), bill(1, 1, 3.0, 3), bill(1, 1, 4.0, 4)];
    let mut batch = before.clone();
    assert!(repo.batch_create(&mut batch).is_err());
    assert_eq!(batch, before);
    assert_eq!(repo.get_latest(1, 1), Ok(vec![head]));
    let mut fitting = vec![bill(1, 1, 2.0, 2), bill(1, 1, 3.0, 3)];
    assert_eq!(repo.batch_create(&mut fitting), Ok(()));
    assert_eq!(fitting[0].id, 2);
    assert_eq!(fitting[1].id, 3);
}

#[test]
fn bill_batch_is_persisted_in_order() {
    let mut repo = bills_with_room(usize::MAX);
    let mut batch = vec![bill(1, 1, 1.0, 5), bill(1, 1, 2.0, 5), bill(1, 1, 3.0, 5)];
    repo.batch_create(&mut batch).unwrap();
    let listed = repo.get_latest(1, 1).unwrap();
    assert_eq!(listed, vec![batch[2], batch[1], batch[0]]);
}

#[test]
fn get_latest_lists_one_ledger_only() {
    let mut repo = bills_with_room(usize::MAX);
    let mut mine = bill(1, 1, 1.0, 10);
    let mut other_user = bill(2, 1, 2.0, 11);
    let mut other_book = bill(1, 2, 3.0, 12);
    let mut mine_again = bill(1, 1, 4.0, 13);
    repo.create(&mut mine).unwrap();
    repo.create(&mut other_user).unwrap();
    repo.create(&mut other_book).unwrap();
    repo.create(&mut mine_again).unwrap();
    assert_eq!(repo.get_latest(1, 1), Ok(vec![mine_again, mine]));
    assert_eq!(repo.get_latest(2, 1), Ok(vec![other_user]));
    assert_eq!(repo.get_latest(1, 2), Ok(vec![other_book]));
    assert_eq!(repo.get_latest(2, 2), Ok(Vec::new()));
}

#[test]
fn get_latest_runs_newest_first_by_creation_time() {
    let mut repo = bills_with_room(usize::MAX);
    let times: [i64; 7] = [50, 10, 70, -5, 30, 70, 0];
    let mut written = Vec::new();
    for t in times {
        let mut b = bill(1, 1, t as f64, t);
        repo.create(&mut b).unwrap();
        written.push(b);
    }
    let listed = repo.get_latest(1, 1).unwrap();
    let listed_times: Vec<i64> = listed.iter().map(|b| b.create_at_sec).collect();
    assert_eq!(listed_times, vec![70, 70, 50, 30, 10, 0, -5]);
    // same second: the later write first
    assert_eq!(listed[0], written[5]);
    assert_eq!(listed[1], written[2]);
    for pair in listed.windows(2) {
        assert!(pair[0].create_at_sec >= pair[1].create_at_sec);
    }
}

#[test]
fn get_latest_does_not_change_the_store() {
    let mut repo = bills_with_room(usize::MAX);
    let mut b = bill(1, 1, 1.0, 1);
    repo.create(&mut b).unwrap();
    let first = repo.get_latest(1, 1);
    let second = repo.get_latest(1, 1);
    assert_eq!(first, second);
}

#[test]
fn tag_create_assigns_identifiers_in_order_of_writing() {
    let mut repo = tags_with_room(usize::MAX);
    let mut food = tag("food", TagLevel::Lv1, None);
    let mut travel = tag("travel", TagLevel::Lv1, None);
    assert_eq!(repo.create(&mut food), Ok(()));
    assert_eq!(repo.create(&mut travel), Ok(()));
    assert_eq!(food.id, 1);
    assert_eq!(travel.id, 2);
}

#[test]
fn tag_create_touches_nothing_but_the_identifier() {
    let mut repo = tags_with_room(usize::MAX);
    let before = tag("food", TagLevel::Lv1, None);
    let mut after = before.clone();
    repo.create(&mut after).unwrap();
    assert_eq!(after, TagInfo { id: 1, ..before });
}

#[test]
fn tag_create_takes_a_secondary_tag_under_a_primary_one() {
    let mut repo = tags_with_room(usize::MAX);
    let mut food = tag("food", TagLevel::Lv1, None);
    repo.create(&mut food).unwrap();
    let mut lunch = tag("food.lunch", TagLevel::Lv2, Some(food.id));
    assert_eq!(repo.create(&mut lunch), Ok(()));
    assert_eq!(lunch.id, 2);
    assert_eq!(lunch.parent_id, Some(1));
}

#[test]
fn tag_create_refuses_a_primary_tag_with_a_parent() {
    let mut repo = tags_with_room(usize::MAX);
    let mut food = tag("food", TagLevel::Lv1, None);
    repo.create(&mut food).unwrap();
    let before = tag("drink", TagLevel::Lv1, Some(food.id));
    let mut drink = before.clone();
    assert_eq!(
        repo.create(&mut drink),
        Err(StorageError { detail: String::from("tag is not admissible") })
    );
    assert_eq!(drink, before);
}

#[test]
fn tag_create_refuses_a_secondary_tag_without_a_parent() {
    let mut repo = tags_with_room(usize::MAX);
    let mut lunch = tag("lunch", TagLevel::Lv2, None);
    assert!(repo.create(&mut lunch).is_err());
    assert_eq!(lunch.id, 0);
}

#[test]
fn tag_create_refuses_a_parent_that_is_not_stored() {
    let mut repo = tags_with_room(usize::MAX);
    let mut food = tag("food", TagLevel::Lv1, None);
    repo.create(&mut food).unwrap();
    for missing in [0, 2, 3, u64::MAX] {
        let mut lunch = tag("lunch", TagLevel::Lv2, Some(missing));
        assert!(repo.create(&mut lunch).is_err());
    }
}

#[test]
fn tag_create_refuses_a_parent_that_is_secondary() {
    let mut repo = tags_with_room(usize::MAX);
    let mut food = tag("food", TagLevel::Lv1, None);
    repo.create(&mut food).unwrap();
    let mut lunch = tag("lunch", TagLevel::Lv2, Some(food.id));
    repo.create(&mut lunch).unwrap();
    let mut noodles = tag("noodles", TagLevel::Lv2, Some(lunch.id));
    assert!(repo.create(&mut noodles).is_err());
}

#[test]
fn tag_create_refuses_a_key_that_is_taken() {
    let mut repo = tags_with_room(usize::MAX);
    let mut food = tag("food", TagLevel::Lv1, None);
    repo.create(&mut food).unwrap();
    let mut again = tag("food", TagLevel::Lv1, None);
    assert!(repo.create(&mut again).is_err());
    let mut under = tag("food", TagLevel::Lv2, Some(food.id));
    assert!(repo.create(&mut under).is_err());
    // a refused tag takes no identifier away
    let mut drink = tag("drink", TagLevel::Lv1, None);
    repo.create(&mut drink).unwrap();
    assert_eq!(drink.id, 2);
}

#[test]
fn tag_create_fails_when_full() {
    let mut repo = tags_with_room(1);
    let mut food = tag("food", TagLevel::Lv1, None);
    repo.create(&mut food).unwrap();
    let mut drink = tag("drink", TagLevel::Lv1, None);
    assert_eq!(
        repo.create(&mut drink),
        Err(StorageError { detail: String::from("repository is full") })
    );
    assert_eq!(drink.id, 0);
}

#[test]
fn tag_batch_create_assigns_distinct_nonzero_identifiers() {
    let mut repo = tags_with_room(usize::MAX);
    let before: Vec<TagInfo> = (0..20).map(|n| tag(&format!("k{}", n), TagLevel::Lv1, None)).collect();
    let mut batch = before.clone();
    assert_eq!(repo.batch_create(&mut batch), Ok(()));
    for (n, t) in batch.iter().enumerate() {
        assert_ne!(t.id, 0);
        assert_eq!(t.id, n as u64 + 1);
        assert_eq!(*t, TagInfo { id: t.id, ..before[n].clone() });
        for later in &batch[n + 1..] {
            assert_ne!(t.id, later.id);
        }
    }
}

#[test]
fn tag_batch_create_may_refer_to_its_own_earlier_tags() {
    let mut repo = tags_with_room(usize::MAX);
    let mut head = tag("travel", TagLevel::Lv1, None);
    repo.create(&mut head).unwrap();
    // "food" will be written second, so it will have the identifier 2
    let mut batch = vec![
        tag("food", TagLevel::Lv1, None),
        tag("food.lunch", TagLevel::Lv2, Some(2)),
        tag("travel.train", TagLevel::Lv2, Some(1)),
    ];
    assert_eq!(repo.batch_create(&mut batch), Ok(()));
    assert_eq!(batch[0].id, 2);
    assert_eq!(batch[1].id, 3);
    assert_eq!(batch[2].id, 4);
}

#[test]
fn tag_batch_create_may_not_refer_to_its_later_tags() {
    let mut repo = tags_with_room(usize::MAX);
    let before = vec![tag("food.lunch", TagLevel::Lv2, Some(2)), tag("food", TagLevel::Lv1, None)];
    let mut batch = before.clone();
    assert!(repo.batch_create(&mut batch).is_err());
    assert_eq!(batch, before);
}

#[test]
fn tag_batch_create_is_all_or_nothing() {
    let mut repo = tags_with_room(usize::MAX);
    let before = vec![
        tag("food", TagLevel::Lv1, None),
        tag("drink", TagLevel::Lv1, None),
        tag("food", TagLevel::Lv1, None),
    ];
    let mut batch = before.clone();
    assert_eq!(
        repo.batch_create(&mut batch),
        Err(StorageError { detail: String::from("tag is not admissible") })
    );
    assert_eq!(batch, before);
    // nothing of the failed batch was kept: its keys are free and the
    // identifiers start at 1
    let mut food = tag("food", TagLevel::Lv1, None);
    assert_eq!(repo.create(&mut food), Ok(()));
    assert_eq!(food.id, 1);
}

#[test]
fn tag_batch_create_fails_when_there_is_not_room_for_all() {
    let mut repo = tags_with_room(2);
    let before = vec![
        tag("a", TagLevel::Lv1, None),
        tag("b", TagLevel::Lv1, None),
        tag("c", TagLevel::Lv1, None),
    ];
    let mut batch = before.clone();
    assert_eq!(
        repo.batch_create(&mut batch),
        Err(StorageError { detail: String::from("repository is full") })
    );
    assert_eq!(batch, before);
    let mut two = vec![tag("a", TagLevel::Lv1, None), tag("b", TagLevel::Lv1, None)];
    assert_eq!(repo.batch_create(&mut two), Ok(()));
}

#[test]
fn tag_clone_is_equal() {
    let t = tag("food", TagLevel::Lv2, Some(4));
    assert_eq!(t.clone(), t);
}
