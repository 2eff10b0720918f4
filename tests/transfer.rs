use std::collections::VecDeque;

use item_graph::move_items_in_graph::TransferItem;
use item_graph::transfer_items::referencing_traits::Transfer;

fn transfer_of(values: &[u64]) -> Transfer {
    let from = values.iter().map(|&d| TransferItem { data: d }).collect::<VecDeque<_>>();
    Transfer { from, to: Vec::new() }
}

fn data_of<'a>(items: impl IntoIterator<Item = &'a TransferItem>) -> Vec<u64> {
    items.into_iter().map(|i| i.data).collect()
}

#[test]
fn referencing_collections_test_transfer() {
    let transfer = transfer_of(&[1u64, 2u64, 3u64, 4u64]);
    let mut iterator = transfer.start(2u64);

    let e1 = iterator.next().unwrap();
    assert_eq!(e1.data, 1u64);

    let e2 = iterator.next().unwrap();
    assert_eq!(e2.data, 2u64);

    let e3 = iterator.next();
    assert!(e3.is_none());

    let transfer = iterator.finish();
    assert_eq!(transfer.to.get(0).unwrap().data, 1u64);
    assert_eq!(transfer.to.get(1).unwrap().data, 2u64);
}

#[test]
fn referencing_traits_test_transfer() {
    let transfer = transfer_of(&[1u64, 2u64, 3u64, 4u64]);
    let mut iterator = transfer.start(2u64);

    let e1 = iterator.next().unwrap();
    assert_eq!(e1.data, 1u64);

    let e2 = iterator.next().unwrap();
    assert_eq!(e2.data, 2u64);

    let e3 = iterator.next();
    assert!(e3.is_none());

    let transfer = iterator.finish();
    assert_eq!(transfer.to.get(0).unwrap().data, 1u64);
    assert_eq!(transfer.to.get(1).unwrap().data, 2u64);
}

#[test]
fn transfer_moves_the_admitted_prefix() {
    let mut cursor = transfer_of(&[1, 2, 3, 4]).start(2);
    let moved = cursor.drain();
    assert_eq!(data_of(&moved), vec![1, 2]);
    let transfer = cursor.finish();
    assert_eq!(data_of(&transfer.to), vec![1, 2]);
    assert_eq!(data_of(&transfer.from), vec![3, 4]);
}

#[test]
fn transfer_stops_at_first_rejected_item() {
    let mut cursor = transfer_of(&[5, 1, 2]).start(2);
    assert!(cursor.next().is_none());
    assert!(cursor.drain().is_empty());
    let transfer = cursor.finish();
    assert!(transfer.to.is_empty());
    assert_eq!(data_of(&transfer.from), vec![5, 1, 2]);
}

#[test]
fn transfer_conserves_items() {
    let mut transfer = transfer_of(&[3, 9, 1]);
    transfer.to.push(TransferItem::new(0));
    let mut cursor = transfer.start(4);
    let moved = cursor.drain();
    let transfer = cursor.finish();
    assert_eq!(transfer.from.len() + moved.len(), 3);
    assert_eq!(transfer.to.len(), 1 + moved.len());
    assert_eq!(data_of(&transfer.to), vec![0, 3]);
}

#[test]
fn transfer_on_empty_source_ends_at_once() {
    let mut cursor = transfer_of(&[]).start(u64::MAX);
    assert!(cursor.next().is_none());
    let transfer = cursor.finish();
    assert!(transfer.from.is_empty());
    assert!(transfer.to.is_empty());
}

#[test]
fn second_cursor_continues_from_new_state() {
    let mut cursor = transfer_of(&[1, 6, 2]).start(1);
    assert_eq!(cursor.next().map(|i| i.data), Some(1));
    assert!(cursor.next().is_none());
    let mut cursor = cursor.finish().start(10);
    assert_eq!(data_of(&cursor.drain()), vec![6, 2]);
    let transfer = cursor.finish();
    assert_eq!(data_of(&transfer.to), vec![1, 6, 2]);
    assert!(transfer.from.is_empty());
}

#[test]
fn transfer_admits_value_equal_to_bound() {
    let mut cursor = transfer_of(&[u64::MAX]).start(u64::MAX);
    assert_eq!(cursor.next().map(|i| i.data), Some(u64::MAX));
}
