use unchecked_bytes::unchecked::UncheckedSliceExt;

#[test]
fn unchecked_access_matches_checked_access() {
    let v: Vec<u64> = vec![10, 20, 30, 40];
    let view_ro = v.nc();
    assert_eq!(*view_ro.get(3), 40);
    for i in 0..4 {
        assert_eq!(*view_ro.get(i), v[i]);
    }
}

#[test]
fn read_only_view_len_matches_sequence() {
    let v: Vec<u64> = vec![1, 2, 3, 4, 5];
    assert_eq!(v.nc().len(), 5);
    let empty: Vec<u64> = vec![];
    assert_eq!(empty.nc().len(), 0);
}

#[test]
fn mutable_view_edits_and_releases() {
    let v: Vec<u64> = vec![1, 2, 3];
    let mut view_rw = v.nc_mut();
    assert_eq!(view_rw.len(), 3);
    assert_eq!(*view_rw.get(1), 2);
    view_rw.set(1, 9);
    assert_eq!(*view_rw.get(1), 9);
    assert_eq!(*view_rw.get(0), 1);
    assert_eq!(*view_rw.get(2), 3);
    let back = view_rw.into_vec();
    assert_eq!(back, vec![1, 9, 3]);
}
