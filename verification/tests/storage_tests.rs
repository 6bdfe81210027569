use loctrack::storage::{Grid, Timeline, StorageError};

const SIZE: usize = 10;
const EPOCH: usize = 5;
const FILENAME: &str = "/storage/storage.txt";
const POS_X: usize = 3;
const DIFF_POS_X: usize = 5;
const POS_Y: usize = 5;
const IDX: usize = 785;

#[test]
fn storage_new_grid() {
    let grid = Grid::new_empty(SIZE);
    assert_eq!(SIZE, grid.size);

    for collum in grid.grid.iter() {
        for square in collum.iter() {
            assert_eq!(0, square.items.len())
        }
    }
}

#[test]
fn grid_add_user() {
    let mut grid = Grid::new_empty(SIZE);
    grid.add_user_location(POS_X, POS_Y, IDX);
    let users = grid.get_users_at_location(POS_X, POS_Y);
    assert_eq!(1, users.len());
    assert_eq!(IDX, users[0]);
}

#[test]
fn storage_build_timeline() {
    let timeline = Timeline::new(SIZE, FILENAME.to_string());
    assert_eq!(SIZE, timeline.size);
}

#[test]
fn add_user() {
    let mut storage = Timeline::new(SIZE, FILENAME.to_string());

    assert!(storage
        .add_user_location_at_epoch(EPOCH, (POS_X, POS_Y), IDX, "report".as_bytes().to_vec())
        .is_ok());

    let report = storage.get_user_report_at_epoch(EPOCH, IDX).unwrap();

    assert_eq!(report, "report".as_bytes().to_vec());

    let users = storage.get_users_at_epoch_at_location(EPOCH, (POS_X, POS_Y)).unwrap();

    assert_eq!(1, users.len());

    assert_eq!((IDX, "report".as_bytes().to_vec()), users[0]);
}

#[test]
fn add_user_out_of_bound() {
    let mut storage = Timeline::new(SIZE, FILENAME.to_string());

    assert!(storage
        .add_user_location_at_epoch(EPOCH, (SIZE, POS_Y), IDX, "report".as_bytes().to_vec())
        .is_err());
}

#[test]
fn double_report_at_same_epoch_diff_pos() {
    let mut storage = Timeline::new(SIZE, FILENAME.to_string());

    assert!(storage
        .add_user_location_at_epoch(EPOCH, (POS_X, POS_Y), IDX, "report".as_bytes().to_vec())
        .is_ok());

    assert!(storage
        .add_user_location_at_epoch(EPOCH, (DIFF_POS_X, POS_Y), IDX, "report".as_bytes().to_vec())
        .is_err());
}

#[test]
fn double_report_at_same_epoch_same_pos() {
    let mut storage = Timeline::new(SIZE, FILENAME.to_string());

    assert!(storage
        .add_user_location_at_epoch(EPOCH, (POS_X, POS_Y), IDX, "report".as_bytes().to_vec())
        .is_ok());

    assert!(storage
        .add_user_location_at_epoch(EPOCH, (POS_X, POS_Y), IDX, "report".as_bytes().to_vec())
        .is_ok());
}

#[test]
fn test_nonce() {
    let nonce: Vec<u8> = vec![7u8; 24];

    let mut storage = Timeline::new(SIZE, FILENAME.to_string());

    assert!(storage.valid_nonce(IDX, &nonce));

    assert!(storage.add_nonce(IDX, nonce.clone()));

    assert!(!storage.valid_nonce(IDX, &nonce));

    assert!(!storage.add_nonce(IDX, nonce));
}

#[test]
fn ha_nonce_tracking() {
    let nonce: Vec<u8> = vec![9u8; 24];
    let mut storage = Timeline::new(SIZE, FILENAME.to_string());
    assert!(storage.valid_ha_nonce(&nonce));
    assert!(storage.add_ha_nonce(nonce.clone()));
    assert!(!storage.valid_ha_nonce(&nonce));
    assert!(!storage.add_ha_nonce(nonce));
}

#[test]
fn equivocation_blacklists_and_blocks() {
    let mut storage = Timeline::new(SIZE, FILENAME.to_string());
    assert!(storage
        .add_user_location_at_epoch(EPOCH, (POS_X, POS_Y), IDX, b"one".to_vec())
        .is_ok());
    let second =
        storage.add_user_location_at_epoch(EPOCH, (DIFF_POS_X, POS_Y), IDX, b"two".to_vec());
    assert_eq!(Err(StorageError::Equivocation), second);
    // once blacklisted, any further write for the index fails
    let third = storage.add_user_location_at_epoch(EPOCH + 1, (POS_X, POS_Y), IDX, b"three".to_vec());
    assert_eq!(Err(StorageError::Blacklisted), third);
}

#[test]
fn proofs_index_append_and_get() {
    let mut storage = Timeline::new(SIZE, FILENAME.to_string());
    storage.add_proofs(vec![
        (IDX, 4, b"pa".to_vec()),
        (IDX, 5, b"pb".to_vec()),
        (IDX + 1, 4, b"pc".to_vec()),
    ]);
    let got = storage.get_proofs(IDX, &vec![4usize, 5usize]);
    assert_eq!(vec![b"pa".to_vec(), b"pb".to_vec()], got);
    let got4 = storage.get_proofs(IDX, &vec![4usize]);
    assert_eq!(vec![b"pa".to_vec()], got4);
}

#[test]
fn snapshot_round_trip() {
    let mut storage = Timeline::new(SIZE, FILENAME.to_string());
    assert!(storage
        .add_user_location_at_epoch(EPOCH, (POS_X, POS_Y), IDX, b"report".to_vec())
        .is_ok());
    storage.add_proofs(vec![(IDX, EPOCH, b"proof".to_vec())]);
    assert!(storage.add_nonce(IDX, vec![7u8; 24]));
    assert!(storage.add_ha_nonce(vec![9u8; 24]));

    let bytes = storage.encode_timeline();
    let back = Timeline::decode_timeline(&bytes, FILENAME.to_string()).unwrap();
    assert!(back.check_wf());
    assert_eq!(SIZE, back.size);
    assert_eq!(FILENAME, back.filename());
    assert_eq!(Some(b"report".to_vec()), back.get_user_report_at_epoch(EPOCH, IDX));
    assert_eq!(vec![b"proof".to_vec()], back.get_proofs(IDX, &vec![EPOCH]));
    assert!(!back.valid_nonce(IDX, &vec![7u8; 24]));
    assert!(!back.valid_ha_nonce(&vec![9u8; 24]));
}

#[test]
fn snapshot_rejects_garbage() {
    let garbage: Vec<u8> = vec![1, 2, 3];
    assert!(Timeline::decode_timeline(&garbage, FILENAME.to_string()).is_none());
}
