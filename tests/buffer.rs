use cs144_rust::util::buffer::{Buffer, BufferList, BufferViewList};

#[test]
fn buffer_test_new() {
    let buffer = Buffer::new([1, 2, 3, 4, 5]);
    assert_eq!(buffer.len(), 5);
    assert_eq!(buffer.as_slice(), &[1, 2, 3, 4, 5][..]);
}

#[test]
fn test_as_slice() {
    let buffer = Buffer::new([1, 2, 3, 4, 5]);
    assert_eq!(buffer.as_slice(), &[1, 2, 3, 4, 5][..]);
}

#[test]
fn test_at() {
    let buffer = Buffer::new([1, 2, 3, 4, 5]);
    assert_eq!(buffer.at(0), Some(1));
    assert_eq!(buffer.at(4), Some(5));
    assert_eq!(buffer.at(5), None);
}

#[test]
fn test_len() {
    let buffer = Buffer::new([1, 2, 3, 4, 5]);
    assert_eq!(buffer.len(), 5);
}

#[test]
fn buffer_test_remove_prefix() {
    let mut buffer = Buffer::new([1, 2, 3, 4, 5]);
    assert_eq!(buffer.remove_prefix(3), Ok(()));
    assert_eq!(buffer.as_slice(), &[4, 5][..]);
    assert_eq!(
        buffer.remove_prefix(3),
        Err("Buffer::remove_prefix n too large")
    );
}

#[test]
fn test_as_ref() {
    let buffer = Buffer::new([1, 2, 3, 4, 5]);
    assert_eq!(buffer.as_slice(), &[1, 2, 3, 4, 5][..]);
}

#[test]
fn buffer_copy_is_independent_of_offset() {
    let mut buffer = Buffer::new_form_vec(vec![9, 8, 7, 6]);
    buffer.remove_prefix(1).unwrap();
    let copy = buffer.copy();
    assert_eq!(copy.as_slice(), &[8, 7, 6][..]);
    assert_eq!(Buffer::empty().len(), 0);
}

fn list_of(parts: Vec<Vec<u8>>) -> BufferList {
    let mut list = BufferList::new();
    for p in parts {
        list.append_buffer(Buffer::new_form_vec(p));
    }
    list
}

#[test]
fn test_append() {
    let mut buffer_list1 = list_of(vec![vec![1, 2, 3]]);
    let mut buffer_list2 = list_of(vec![vec![4, 5, 6]]);
    buffer_list1.append(&mut buffer_list2);
    assert_eq!(buffer_list1.total_size(), 6);
    assert_eq!(buffer_list2.total_size(), 0);
}

#[test]
fn test_len_buffer_list() {
    let buffer_list = list_of(vec![vec![1, 2, 3], vec![4, 5, 6]]);
    assert_eq!(buffer_list.total_size(), 6);
}

#[test]
fn test_buffers() {
    let buffer_list = list_of(vec![vec![1, 2, 3], vec![4, 5, 6]]);
    assert_eq!(buffer_list.buffers().len(), 2);
}

#[test]
fn test_to_buffer() {
    let buffer_list = list_of(vec![vec![1, 2, 3]]);
    assert_eq!(buffer_list.to_buffer().unwrap().as_slice(), &[1, 2, 3][..]);
}

#[test]
fn to_buffer_refuses_two_buffers() {
    let buffer_list = list_of(vec![vec![1], vec![2]]);
    assert!(buffer_list.to_buffer().is_err());
    assert_eq!(BufferList::new().to_buffer().unwrap().len(), 0);
}

#[test]
fn test_remove_prefix_buffer_list() {
    let mut buffer_list = list_of(vec![vec![1, 2, 3], vec![4, 5, 6]]);
    assert_eq!(buffer_list.remove_prefix(4), Ok(()));
    assert_eq!(buffer_list.total_size(), 2);
    assert_eq!(
        buffer_list.remove_prefix(3),
        Err("BufferList::remove_prefix out of bounds")
    );
}

#[test]
fn test_concatenate() {
    let buffer_list = list_of(vec![vec![1, 2, 3], vec![4, 5, 6]]);
    let result = buffer_list.concatenate();
    assert_eq!(result.as_slice(), &[1, 2, 3, 4, 5, 6]);
}

#[test]
fn test_new_buffer_viewlist() {
    let buffer_list = list_of(vec![vec![1, 2, 3], vec![4, 5, 6]]);
    let view_list = BufferViewList::new(&buffer_list);
    assert_eq!(view_list.total_size(), 6);
}

#[test]
fn test_new_from_slice() {
    let slice = &[1, 2, 3, 4, 5, 6];
    let view_list = BufferViewList::new_frome_slice(slice);
    assert_eq!(view_list.total_size(), 6);
}

#[test]
fn test_len_buffer_viewlist() {
    let slice = &[1, 2, 3, 4, 5, 6];
    let view_list = BufferViewList::new_frome_slice(slice);
    assert_eq!(view_list.total_size(), 6);
}

#[test]
fn test_is_empty() {
    let slice: &[u8] = &[];
    let view_list = BufferViewList::new_frome_slice(slice);
    assert!(view_list.is_empty());
}

#[test]
fn test_remove_prefix_buffer_viewlist() {
    let slice = &[1, 2, 3, 4, 5, 6];
    let mut view_list = BufferViewList::new_frome_slice(slice);
    assert_eq!(view_list.remove_prefix(3), Ok(()));
    assert_eq!(view_list.total_size(), 3);
    assert_eq!(
        view_list.remove_prefix(4),
        Err("BufferViewList::remove_prefix out of bounds")
    );
}
