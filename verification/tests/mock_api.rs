use daos_rs::array::{read_extents, resize_array, write_extents, writes_in_bounds};
use daos_rs::mock_daos::{
    daos_array_close, daos_array_destroy, daos_array_get_size, daos_array_open_with_attr,
    daos_array_read, daos_array_set_size, daos_array_write, daos_cont_close, daos_event_test,
    daos_fini, daos_init, daos_obj_generate_oid2, daos_obj_punch, daos_pool_connect2,
    DAOS_NO_SUCH_OBJECT, DAOS_SUCCESS,
};
use daos_rs::names::{max_object_id, parse_object_name};
use daos_rs::storage::Storage;
use daos_rs::types::{ArrayIod, ArrayRange, DaosHandle, DaosObjId, DAOS_API_VERSION_MINOR};

fn empty_store() -> Storage {
    Storage::new(&Vec::new())
}

fn iod_with(ranges: Vec<ArrayRange>) -> ArrayIod {
    ArrayIod { arr_nr: ranges.len() as u64, arr_rgs: ranges, arr_nr_short_read: 0, arr_nr_read: 0 }
}

fn open(storage: &mut Storage, oid: DaosObjId) -> DaosHandle {
    let mut oh = DaosHandle { cookie: 0 };
    let rc = daos_array_open_with_attr(
        storage,
        DaosHandle { cookie: 0 },
        oid,
        DaosHandle { cookie: 0 },
        0,
        1,
        1024,
        &mut oh,
    );
    assert_eq!(rc, DAOS_SUCCESS);
    oh
}

#[test]
fn test() {
    println!("HelloWorld!");
    println!("{}", DAOS_API_VERSION_MINOR);
    let storage = empty_store();
    let x = DaosHandle { cookie: 0 };
    daos_array_close(&storage, x);
}

#[test]
fn api_version_minor_is_overridden() {
    assert_eq!(DAOS_API_VERSION_MINOR, 999);
}

#[test]
fn open_creates_empty_array_and_returns_handle() {
    let mut storage = empty_store();
    let oid = DaosObjId { lo: 42, hi: 7 };
    assert!(!storage.contains(&oid));
    let oh = open(&mut storage, oid);
    assert_eq!(oh, DaosHandle { cookie: 42 });
    assert!(storage.contains(&oid));
    assert_eq!(storage.get(&oid), Some(Vec::new()));
}

#[test]
fn open_twice_keeps_contents() {
    let mut storage = empty_store();
    let oid = DaosObjId { lo: 3, hi: 0 };
    storage.insert(oid, vec![1, 2, 3]);
    let oh = open(&mut storage, oid);
    let oh2 = open(&mut storage, oid);
    assert_eq!(oh, oh2);
    assert_eq!(storage.get(&oid), Some(vec![1, 2, 3]));
}

#[test]
fn write_then_read_gives_bytes_back() {
    let mut storage = empty_store();
    let oid = DaosObjId { lo: 1, hi: 0 };
    let oh = open(&mut storage, oid);
    let iod = iod_with(vec![ArrayRange { rg_idx: 0, rg_len: 5 }]);
    let rc = daos_array_write(&mut storage, oh, DaosHandle { cookie: 0 }, &iod, &vec![vec![10, 20, 30, 40, 50]]);
    assert_eq!(rc, DAOS_SUCCESS);
    let mut riod = iod_with(vec![ArrayRange { rg_idx: 0, rg_len: 5 }]);
    let mut sgl = vec![vec![0u8; 5]];
    let rc = daos_array_read(&storage, oh, DaosHandle { cookie: 0 }, &mut riod, &mut sgl);
    assert_eq!(rc, DAOS_SUCCESS);
    assert_eq!(sgl, vec![vec![10, 20, 30, 40, 50]]);
    assert_eq!(riod.arr_nr_read, 5);
}

#[test]
fn write_at_offset_pads_with_zeros() {
    let mut storage = empty_store();
    let oid = DaosObjId { lo: 2, hi: 0 };
    let oh = open(&mut storage, oid);
    let iod = iod_with(vec![ArrayRange { rg_idx: 3, rg_len: 4 }]);
    let rc = daos_array_write(&mut storage, oh, DaosHandle { cookie: 0 }, &iod, &vec![vec![9, 8]]);
    assert_eq!(rc, DAOS_SUCCESS);
    // the array grows to the end of the extent, the buffer lands at its start
    assert_eq!(storage.get(&oid), Some(vec![0, 0, 0, 9, 8, 0, 0]));
}

#[test]
fn write_several_extents_in_order() {
    let mut storage = empty_store();
    let oid = DaosObjId { lo: 4, hi: 0 };
    storage.insert(oid, vec![1, 1, 1, 1]);
    let oh = DaosHandle { cookie: 4 };
    let iod = iod_with(vec![ArrayRange { rg_idx: 1, rg_len: 2 }, ArrayRange { rg_idx: 2, rg_len: 4 }]);
    let rc = daos_array_write(&mut storage, oh, DaosHandle { cookie: 0 }, &iod, &vec![vec![5, 5], vec![7, 7, 7]]);
    assert_eq!(rc, DAOS_SUCCESS);
    assert_eq!(storage.get(&oid), Some(vec![1, 5, 7, 7, 7, 0]));
}

#[test]
fn write_to_missing_object_fails() {
    let mut storage = empty_store();
    let oh = DaosHandle { cookie: 77 };
    let iod = iod_with(vec![ArrayRange { rg_idx: 0, rg_len: 1 }]);
    let rc = daos_array_write(&mut storage, oh, DaosHandle { cookie: 0 }, &iod, &vec![vec![1]]);
    assert_eq!(rc, DAOS_NO_SUCH_OBJECT);
    assert_eq!(rc, -1);
    assert!(!storage.contains(&DaosObjId { lo: 77, hi: 0 }));
}

#[test]
fn read_spreads_over_buffers_and_stops_at_end() {
    let mut storage = empty_store();
    let oid = DaosObjId { lo: 5, hi: 0 };
    storage.insert(oid, vec![1, 2, 3]);
    let oh = DaosHandle { cookie: 5 };
    let mut iod = iod_with(Vec::new());
    iod.arr_nr_read = 10;
    let mut sgl = vec![vec![0, 0], vec![9, 9], vec![4]];
    let rc = daos_array_read(&storage, oh, DaosHandle { cookie: 0 }, &mut iod, &mut sgl);
    assert_eq!(rc, DAOS_SUCCESS);
    assert_eq!(sgl, vec![vec![1, 2], vec![3, 9], vec![4]]);
    assert_eq!(iod.arr_nr_read, 13);
}

#[test]
fn read_of_missing_object_reads_nothing() {
    let storage = empty_store();
    let mut iod = iod_with(Vec::new());
    let mut sgl = vec![vec![6, 6]];
    let rc = daos_array_read(&storage, DaosHandle { cookie: 8 }, DaosHandle { cookie: 0 }, &mut iod, &mut sgl);
    assert_eq!(rc, DAOS_SUCCESS);
    assert_eq!(sgl, vec![vec![6, 6]]);
    assert_eq!(iod.arr_nr_read, 0);
}

#[test]
fn set_size_extends_with_zeros() {
    let mut storage = empty_store();
    let oid = DaosObjId { lo: 6, hi: 0 };
    storage.insert(oid, vec![1, 2]);
    let oh = DaosHandle { cookie: 6 };
    assert_eq!(daos_array_set_size(&mut storage, oh, DaosHandle { cookie: 0 }, 5), DAOS_SUCCESS);
    assert_eq!(storage.get(&oid), Some(vec![1, 2, 0, 0, 0]));
    let mut size = 0u64;
    assert_eq!(daos_array_get_size(&storage, oh, DaosHandle { cookie: 0 }, &mut size), DAOS_SUCCESS);
    assert_eq!(size, 5);
}

#[test]
fn set_size_smaller_keeps_stored_bytes() {
    let mut storage = empty_store();
    let oid = DaosObjId { lo: 6, hi: 0 };
    storage.insert(oid, vec![1, 2, 3, 4]);
    let oh = DaosHandle { cookie: 6 };
    assert_eq!(daos_array_set_size(&mut storage, oh, DaosHandle { cookie: 0 }, 1), DAOS_SUCCESS);
    // the store writes in place without truncating
    assert_eq!(storage.get(&oid), Some(vec![1, 2, 3, 4]));
    let mut size = 0u64;
    daos_array_get_size(&storage, oh, DaosHandle { cookie: 0 }, &mut size);
    assert_eq!(size, 4);
}

#[test]
fn set_size_of_missing_object_changes_nothing() {
    let mut storage = empty_store();
    let oh = DaosHandle { cookie: 9 };
    assert_eq!(daos_array_set_size(&mut storage, oh, DaosHandle { cookie: 0 }, 3), DAOS_SUCCESS);
    assert!(!storage.contains(&DaosObjId { lo: 9, hi: 0 }));
}

#[test]
fn get_size_of_missing_object_leaves_size() {
    let storage = empty_store();
    let mut size = 123u64;
    let rc = daos_array_get_size(&storage, DaosHandle { cookie: 1 }, DaosHandle { cookie: 0 }, &mut size);
    assert_eq!(rc, DAOS_SUCCESS);
    assert_eq!(size, 123);
}

#[test]
fn punch_and_destroy_remove_objects() {
    let mut storage = empty_store();
    let a = DaosObjId { lo: 11, hi: 0 };
    let b = DaosObjId { lo: 12, hi: 0 };
    storage.insert(a, vec![1]);
    storage.insert(b, vec![2]);
    assert_eq!(daos_obj_punch(&mut storage, DaosHandle { cookie: 11 }, DaosHandle { cookie: 0 }, 0), DAOS_SUCCESS);
    assert!(!storage.contains(&a));
    assert_eq!(storage.get(&b), Some(vec![2]));
    assert_eq!(daos_array_destroy(&mut storage, DaosHandle { cookie: 12 }, DaosHandle { cookie: 0 }), DAOS_SUCCESS);
    assert!(!storage.contains(&b));
    assert_eq!(storage.get(&b), None);
}

#[test]
fn generated_ids_follow_the_largest_name() {
    let names = vec!["3".to_string(), "notes".to_string(), "17".to_string(), "+5".to_string()];
    let mut storage = Storage::new(&names);
    let mut oid = DaosObjId { lo: 0, hi: 99 };
    assert_eq!(daos_obj_generate_oid2(&mut storage, DaosHandle { cookie: 0 }, &mut oid, 0, 0, 0, 0), DAOS_SUCCESS);
    assert_eq!(oid, DaosObjId { lo: 18, hi: 0 });
    daos_obj_generate_oid2(&mut storage, DaosHandle { cookie: 0 }, &mut oid, 0, 0, 0, 0);
    assert_eq!(oid, DaosObjId { lo: 19, hi: 0 });
}

#[test]
fn generated_ids_start_at_one_without_names() {
    let mut storage = empty_store();
    let mut oid = DaosObjId { lo: 0, hi: 0 };
    daos_obj_generate_oid2(&mut storage, DaosHandle { cookie: 0 }, &mut oid, 0, 0, 0, 0);
    assert_eq!(oid.lo, 1);
}

#[test]
fn generated_ids_wrap_at_the_largest_value() {
    let names = vec![(u64::MAX - 1).to_string()];
    let mut storage = Storage::new(&names);
    let mut oid = DaosObjId { lo: 0, hi: 0 };
    daos_obj_generate_oid2(&mut storage, DaosHandle { cookie: 0 }, &mut oid, 0, 0, 0, 0);
    assert_eq!(oid.lo, u64::MAX);
    daos_obj_generate_oid2(&mut storage, DaosHandle { cookie: 0 }, &mut oid, 0, 0, 0, 0);
    assert_eq!(oid.lo, 0);
}

#[test]
fn store_overwrites_in_place_without_truncating() {
    let mut storage = empty_store();
    let oid = DaosObjId { lo: 20, hi: 0 };
    storage.insert(oid, vec![1, 2, 3, 4]);
    storage.insert(oid, vec![9]);
    assert_eq!(storage.get(&oid), Some(vec![9, 2, 3, 4]));
    storage.insert(oid, vec![5, 5, 5, 5, 5]);
    assert_eq!(storage.get(&oid), Some(vec![5, 5, 5, 5, 5]));
}

#[test]
fn store_keys_by_low_word() {
    let mut storage = empty_store();
    storage.insert(DaosObjId { lo: 1, hi: 1 }, vec![1]);
    assert!(storage.contains(&DaosObjId { lo: 1, hi: 2 }));
    assert_eq!(storage.get(&DaosObjId { lo: 1, hi: 0 }), Some(vec![1]));
    assert_eq!(storage.get(&DaosObjId { lo: 2, hi: 1 }), None);
    storage.remove(&DaosObjId { lo: 1, hi: 5 });
    assert!(!storage.contains(&DaosObjId { lo: 1, hi: 1 }));
}

#[test]
fn parse_object_name_follows_u64_parsing() {
    let cases = ["0", "42", "+7", "007", "", "+", "-1", "12a", " 1", "18446744073709551615", "18446744073709551616", "99999999999999999999999"];
    for c in cases {
        assert_eq!(parse_object_name(c), c.parse::<u64>().ok(), "name {:?}", c);
    }
    assert_eq!(parse_object_name("+7"), Some(7));
    assert_eq!(parse_object_name("18446744073709551615"), Some(u64::MAX));
    assert_eq!(parse_object_name("18446744073709551616"), None);
}

#[test]
fn max_object_id_ignores_other_names() {
    assert_eq!(max_object_id(&vec![]), 0);
    assert_eq!(max_object_id(&vec!["a".to_string(), "-3".to_string()]), 0);
    assert_eq!(max_object_id(&vec!["8".to_string(), "x".to_string(), "12".to_string(), "3".to_string()]), 12);
}

#[test]
fn read_extents_fills_in_order() {
    let data = vec![1u8, 2, 3, 4, 5];
    let mut iod = iod_with(Vec::new());
    let mut sgl = vec![vec![0u8; 3], vec![0u8; 3]];
    read_extents(&data, &mut iod, &mut sgl);
    assert_eq!(sgl, vec![vec![1, 2, 3], vec![4, 5, 0]]);
    assert_eq!(iod.arr_nr_read, 5);
}

#[test]
fn write_extents_overwrites_within_array() {
    let mut data = vec![1u8, 2, 3, 4, 5];
    write_extents(&mut data, &vec![ArrayRange { rg_idx: 1, rg_len: 2 }], &vec![vec![8, 9]]);
    assert_eq!(data, vec![1, 8, 9, 4, 5]);
}

#[test]
fn resize_array_cuts_and_extends() {
    let mut data = vec![1u8, 2, 3];
    resize_array(&mut data, 1);
    assert_eq!(data, vec![1]);
    resize_array(&mut data, 3);
    assert_eq!(data, vec![1, 0, 0]);
}

#[test]
fn trivial_calls_succeed() {
    assert_eq!(daos_init(), 0);
    assert_eq!(daos_pool_connect2("pool", "sys", 0), 0);
    assert_eq!(daos_cont_close(DaosHandle { cookie: 1 }), 0);
    assert_eq!(daos_fini(), 0);
    let mut flag = false;
    assert_eq!(daos_event_test(0, &mut flag), 0);
    assert!(flag);
}

#[test]
fn writes_in_bounds_matches_what_a_write_can_do() {
    let data = vec![0u8; 4];
    // a buffer longer than its extent still fits inside the existing array
    assert!(writes_in_bounds(&data, &vec![ArrayRange { rg_idx: 0, rg_len: 1 }], &vec![vec![1, 2, 3]]));
    // but not past its end when the extent does not reach that far
    assert!(!writes_in_bounds(&data, &vec![ArrayRange { rg_idx: 3, rg_len: 1 }], &vec![vec![1, 2]]));
    // a later extent may use the room an earlier one made
    assert!(writes_in_bounds(
        &data,
        &vec![ArrayRange { rg_idx: 0, rg_len: 8 }, ArrayRange { rg_idx: 5, rg_len: 1 }],
        &vec![vec![1], vec![1, 2, 3]]
    ));
    // every buffer needs an extent
    assert!(!writes_in_bounds(&data, &vec![], &vec![vec![1]]));
    // an extent whose end overflows never fits
    assert!(!writes_in_bounds(&data, &vec![ArrayRange { rg_idx: u64::MAX, rg_len: 1 }], &vec![vec![]]));
}
