use hiex::action::{ActionError, ActionList, MemoryUsage};
use hiex::store::{ByteStore, MemoryStore, SeekFrom, StoreError};
use hiex::truncate::Truncate;
use hiex::{stream_len, stream_position, EditAction, Hiex};

const ALPHABET: &[u8] = b"ABCDEFGHIJKLMNOPQRSTUVWXYZ";

fn editor() -> Hiex<MemoryStore, EditAction> {
    Hiex::from_reader(MemoryStore::new(ALPHABET.to_vec())).unwrap()
}

#[test]
fn edit_reject_and_undo_scenario() {
    let mut hex = editor();
    assert_eq!(hex.read_amount_at(0, 420).unwrap().len(), 26);
    hex.add_action(EditAction::new(1, b"ZDX".to_vec()), ()).unwrap();
    assert_eq!(hex.read_amount_at(0, 10).unwrap(), b"AZDXEFGHIJ".to_vec());

    let length = hex.length().unwrap();
    assert_eq!(length, 26);
    let (action, err) = hex
        .add_action(EditAction::new(length, b"0123".to_vec()), ())
        .unwrap_err();
    assert_eq!(err, ActionError::Invalid);
    assert_eq!(action, EditAction::new(26, b"0123".to_vec()));
    assert_eq!(hex.read_amount_at(0, 26).unwrap(), b"AZDXEFGHIJKLMNOPQRSTUVWXYZ".to_vec());

    assert_eq!(hex.undo(()).unwrap(), Some(()));
    assert_eq!(hex.read_amount_at(0, 10).unwrap(), b"ABCDEFGHIJ".to_vec());
}

#[test]
fn two_edits_then_two_undos_scenario() {
    let mut hex = editor();
    hex.add_action(EditAction::new(1, b"ZDX".to_vec()), ()).unwrap();
    hex.add_action(EditAction::new(5, b"01".to_vec()), ()).unwrap();
    assert_eq!(hex.read_amount_at(0, 26).unwrap(), b"AZDXE01HIJKLMNOPQRSTUVWXYZ".to_vec());
    assert_eq!(hex.undo(()).unwrap(), Some(()));
    assert_eq!(hex.undo(()).unwrap(), Some(()));
    assert_eq!(hex.read_amount_at(0, 26).unwrap(), ALPHABET.to_vec());
    assert_eq!(hex.undo(()).unwrap(), None);
}

#[test]
fn undo_all_in_reverse_restores_unedited_bytes() {
    let mut hex = editor();
    hex.add_action(EditAction::new(0, b"xx".to_vec()), ()).unwrap();
    hex.add_action(EditAction::new(1, b"yyy".to_vec()), ()).unwrap();
    hex.add_action(EditAction::new(20, b"12345".to_vec()), ()).unwrap();
    hex.add_action(EditAction::new(2, b"z".to_vec()), ()).unwrap();
    assert_eq!(hex.read_amount_at(0, 26).unwrap(), b"xyzyEFGHIJKLMNOPQRST12345Z".to_vec());
    for _ in 0..4 {
        assert_eq!(hex.undo(()).unwrap(), Some(()));
    }
    assert_eq!(hex.into_inner().into_inner(), ALPHABET.to_vec());
}

#[test]
fn redo_after_undo_reproduces_edit() {
    let mut hex = editor();
    hex.add_action(EditAction::new(3, b"abc".to_vec()), ()).unwrap();
    hex.add_action(EditAction::new(4, b"QQ".to_vec()), ()).unwrap();
    let edited = hex.read_amount_at(0, 26).unwrap();
    assert_eq!(edited, b"ABCaQQGHIJKLMNOPQRSTUVWXYZ".to_vec());
    assert_eq!(hex.undo(()).unwrap(), Some(()));
    assert_eq!(hex.read_amount_at(0, 26).unwrap(), b"ABCabcGHIJKLMNOPQRSTUVWXYZ".to_vec());
    assert_eq!(hex.redo(()).unwrap(), Some(()));
    assert_eq!(hex.read_amount_at(0, 26).unwrap(), edited);
    assert_eq!(hex.redo(()).unwrap(), None);
}

#[test]
fn add_after_undo_discards_future() {
    let mut hex = editor();
    hex.add_action(EditAction::new(0, b"1".to_vec()), ()).unwrap();
    hex.add_action(EditAction::new(1, b"2".to_vec()), ()).unwrap();
    hex.add_action(EditAction::new(2, b"3".to_vec()), ()).unwrap();
    hex.undo(()).unwrap();
    hex.undo(()).unwrap();
    assert_eq!(hex.actions.future_len(), 2);
    hex.add_action(EditAction::new(5, b"9".to_vec()), ()).unwrap();
    assert_eq!(hex.actions.len(), 2);
    assert_eq!(hex.actions.past_len(), 2);
    assert!(hex.actions.is_future_empty());
    assert_eq!(hex.redo(()).unwrap(), None);
    assert_eq!(hex.read_amount_at(0, 26).unwrap(), b"1BCDE9GHIJKLMNOPQRSTUVWXYZ".to_vec());
}

#[test]
fn edit_reaching_end_is_rejected_unchanged() {
    let mut hex = editor();
    // position + length == 26 reaches the end: refused.
    let (action, err) = hex.add_action(EditAction::new(24, b"xy".to_vec()), ()).unwrap_err();
    assert_eq!(err, ActionError::Invalid);
    assert_eq!(action, EditAction::new(24, b"xy".to_vec()));
    assert!(hex.actions.is_empty());
    let (_, err) = hex.add_action(EditAction::new(u64::MAX, b"x".to_vec()), ()).unwrap_err();
    assert_eq!(err, ActionError::Invalid);
    // One byte shorter fits.
    hex.add_action(EditAction::new(23, b"xy".to_vec()), ()).unwrap();
    assert_eq!(hex.read_amount_at(20, 10).unwrap(), b"UVWxyZ".to_vec());
}

#[test]
fn empty_edit_is_accepted() {
    let mut hex = editor();
    hex.add_action(EditAction::new(3, Vec::new()), ()).unwrap();
    assert_eq!(hex.read_amount_at(0, 26).unwrap(), ALPHABET.to_vec());
    assert_eq!(hex.undo(()).unwrap(), Some(()));
    assert_eq!(hex.read_amount_at(0, 26).unwrap(), ALPHABET.to_vec());
}

#[test]
fn undo_and_redo_on_empty_log() {
    let mut hex = editor();
    assert_eq!(hex.undo(()).unwrap(), None);
    assert_eq!(hex.redo(()).unwrap(), None);
    assert!(hex.actions.is_past_empty());
    assert!(hex.actions.is_future_empty());
}

#[test]
fn read_amount_stops_at_end() {
    let mut hex = editor();
    assert_eq!(hex.read_amount_at(22, 10).unwrap(), b"WXYZ".to_vec());
    assert_eq!(hex.read_amount_at(30, 10).unwrap(), Vec::<u8>::new());
    assert_eq!(hex.read_amount_at(3, 0).unwrap(), Vec::<u8>::new());
    assert_eq!(hex.position().unwrap(), 3);
}

#[test]
fn read_at_fills_or_fails() {
    let mut hex = editor();
    let mut buf = vec![0u8; 4];
    hex.read_at(10, &mut buf).unwrap();
    assert_eq!(buf, b"KLMN".to_vec());
    let mut buf = vec![0u8; 4];
    assert_eq!(hex.read_at(24, &mut buf), Err(StoreError::UnexpectedEof));
}

#[test]
fn length_keeps_position() {
    let mut hex = editor();
    hex.seek(SeekFrom::Start(7)).unwrap();
    assert_eq!(hex.length().unwrap(), 26);
    assert_eq!(hex.position().unwrap(), 7);
    assert_eq!(hex.read(3).unwrap(), b"HIJ".to_vec());
}

#[test]
fn save_to_copies_edited_bytes() {
    let mut hex = editor();
    hex.add_action(EditAction::new(1, b"ZDX".to_vec()), ()).unwrap();
    let mut destination = MemoryStore::new(Vec::new());
    hex.save_to(&mut destination).unwrap();
    assert_eq!(destination.into_inner(), b"AZDXEFGHIJKLMNOPQRSTUVWXYZ".to_vec());
    let actions: ActionList<EditAction> = hex.into_inner_actions();
    assert_eq!(actions.len(), 1);
}

#[test]
fn memory_usage_sums_actions() {
    let mut hex = editor();
    assert_eq!(hex.actions.memory_usage(), 0);
    let fresh = EditAction::new(1, b"ZDX".to_vec());
    assert_eq!(fresh.memory_usage(), 11);
    hex.add_action(fresh, ()).unwrap();
    hex.add_action(EditAction::new(5, b"01".to_vec()), ()).unwrap();
    assert_eq!(hex.actions.memory_usage(), (8 + 3 + 3) + (8 + 2 + 2));
}

#[test]
fn action_list_with_capacity_starts_empty() {
    let list: ActionList<EditAction> = ActionList::with_capacity(8);
    assert!(list.is_empty());
    assert_eq!(list.future_len(), 0);
    let mut list: ActionList<EditAction> = ActionList::new();
    let mut store = MemoryStore::new(ALPHABET.to_vec());
    list.add(EditAction::new(0, b"a".to_vec()), &mut store, ()).unwrap();
    list.undo(&mut store, ()).unwrap();
    assert_eq!(list.future_len(), 1);
    list.clear_future();
    assert!(list.is_empty());
    assert_eq!(store.into_inner(), ALPHABET.to_vec());
}

#[test]
fn memory_store_reads_writes_and_seeks() {
    let mut store = MemoryStore::new(b"abc".to_vec());
    assert_eq!(stream_len(&mut store).unwrap(), 3);
    store.seek(SeekFrom::Start(5)).unwrap();
    assert_eq!(store.read(4).unwrap(), Vec::<u8>::new());
    assert_eq!(store.write(b"xy").unwrap(), 2);
    assert_eq!(stream_position(&mut store).unwrap(), 7);
    assert_eq!(store.get_ref().clone(), b"abc\0\0xy".to_vec());
    assert_eq!(store.seek(SeekFrom::End(-8)), Err(StoreError::InvalidInput));
    assert_eq!(store.seek(SeekFrom::End(-7)).unwrap(), 0);
}

#[test]
fn truncate_memory_store() {
    let mut store = MemoryStore::new(b"abcdef".to_vec());
    store.seek(SeekFrom::Start(5)).unwrap();
    store.truncate(3).unwrap();
    assert_eq!(store.position(), 2);
    assert_eq!(store.get_ref().clone(), b"abc".to_vec());
    store.truncate(5).unwrap();
    assert_eq!(store.position(), 2);
    assert_eq!(store.into_inner(), b"abc\0\0".to_vec());
}
