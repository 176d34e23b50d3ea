//! Host-side scenarios for the view semantics the dispatch protocol must
//! reproduce: dense round trips, transposed views, reversed and broadcast
//! axes, and elementwise addition over strided views.

use wgpu_array::array::HostArray;
use wgpu_array::bytes::{decode_words, encode_words, i32s_to_words};
use wgpu_array::indexing::{default_strides, elem_count, strided_index};

fn host(data: Vec<f32>, dim: Vec<usize>, strides: Vec<isize>, offset: usize) -> HostArray {
    HostArray { data: data.into_iter().map(f32::to_bits).collect(), dim, strides, offset }
}

fn floats(words: Vec<u32>) -> Vec<f32> {
    words.into_iter().map(f32::from_bits).collect()
}

#[test]
fn dense_upload_words_are_the_data() {
    // For a dense row-major view, the words upload would copy to the device
    // are the array's own storage, element for element.
    let data: Vec<f32> = (0..10).map(|x| x as f32).collect();
    let a = host(data.clone(), vec![2, 5], vec![5, 1], 0);
    let logical = a.logical_elements();
    assert_eq!(logical, a.data);
    assert_eq!(floats(logical), data);
}

#[test]
fn word_byte_roundtrip() {
    // The readback decode inverts the little-endian byte layout of a buffer.
    let words: Vec<u32> = vec![0, 1, 0x0123_4567, u32::MAX, 2.5f32.to_bits()];
    let bytes = encode_words(&words);
    assert_eq!(bytes.len(), 20);
    assert_eq!(&bytes[4..8], &[1, 0, 0, 0]);
    assert_eq!(decode_words(&bytes), words);
}

#[test]
fn elementwise_add_5x5() {
    // Two 5x5 arrays filled with 2.0 and 3.0 added elementwise give a 5x5
    // array filled with 5.0.
    let a = host(vec![2.0; 25], vec![5, 5], vec![5, 1], 0);
    let b = host(vec![3.0; 25], vec![5, 5], vec![5, 1], 0);
    let left = a.logical_elements();
    let right = b.logical_elements();
    assert_eq!(left.len(), 25);
    let sums: Vec<f32> = left
        .iter()
        .zip(right.iter())
        .map(|(l, r)| f32::from_bits(*l) + f32::from_bits(*r))
        .collect();
    assert_eq!(sums, vec![5.0; 25]);
}

#[test]
fn transposed_view_2x5() {
    // A 2x5 array holding 0..10 row-major, viewed transposed (shape 5x2,
    // strides swapped), reads back as the host transpose of the source.
    let data: Vec<f32> = (0..10).map(|x| x as f32).collect();
    let t = host(data.clone(), vec![5, 2], vec![1, 5], 0);
    let logical = floats(t.logical_elements());
    let mut expected = Vec::new();
    for col in 0..5 {
        for row in 0..2 {
            expected.push(data[row * 5 + col]);
        }
    }
    assert_eq!(logical, expected);
    assert_eq!(logical, vec![0.0, 5.0, 1.0, 6.0, 2.0, 7.0, 3.0, 8.0, 4.0, 9.0]);
}

#[test]
fn sliced_reversed_add_2x2x3() {
    // From a 2x2x3 array holding 1..12: the first row of each submatrix,
    // added to the last row of each submatrix with its elements reversed,
    // gives 7,7,7,19,19,19.
    let source: Vec<f32> = (1..13).map(|x| x as f32).collect();
    let b = host(source.clone(), vec![2, 1, 3], vec![6, 3, 1], 0);
    let d = host(source, vec![2, 1, 3], vec![6, 3, -1], 5);
    let left = b.logical_elements();
    let right = d.logical_elements();
    let sums: Vec<f32> = left
        .iter()
        .zip(right.iter())
        .map(|(l, r)| f32::from_bits(*l) + f32::from_bits(*r))
        .collect();
    assert_eq!(sums, vec![7.0, 7.0, 7.0, 19.0, 19.0, 19.0]);
}

#[test]
fn broadcast_zero_stride_axis() {
    // A zero stride repeats one row along a broadcast axis without copying.
    let row = host(vec![1.5, 2.5, 3.5, 4.5], vec![3, 4], vec![0, 1], 0);
    let logical = floats(row.logical_elements());
    assert_eq!(logical, vec![
        1.5, 2.5, 3.5, 4.5,
        1.5, 2.5, 3.5, 4.5,
        1.5, 2.5, 3.5, 4.5,
    ]);
}

#[test]
fn strided_index_matches_manual_walk() {
    let shape = vec![2, 1, 3];
    let strides = vec![6isize, 3, -1];
    let flat: Vec<usize> = (0..6).map(|id| strided_index(&shape, &strides, 5, id)).collect();
    assert_eq!(flat, vec![5, 4, 3, 11, 10, 9]);
}

#[test]
fn default_strides_and_count() {
    assert_eq!(default_strides(&vec![2, 3, 4]), vec![12, 4, 1]);
    assert_eq!(default_strides(&vec![7]), vec![1]);
    assert_eq!(elem_count(&vec![2, 3, 4]), 24);
    assert_eq!(elem_count(&vec![1]), 1);
}

#[test]
fn stride_words_are_twos_complement() {
    // Signed strides travel to the device as raw two's complement words.
    let words = i32s_to_words(&vec![-1, 0, 6]);
    assert_eq!(words, vec![u32::MAX, 0, 6]);
}
