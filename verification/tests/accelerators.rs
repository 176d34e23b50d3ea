//! The host-side reference of the kernel's index arithmetic: coordinate
//! decomposition and stride-aware elementwise addition.

use wgpu_array::indexing::{ind2sub, strided_index};

struct HostSlice<'a> {
    data: &'a [f32],
}

struct HostSliceMut<'a> {
    data: &'a mut [f32],
}

fn add(
    id: usize,
    shape: &Vec<usize>,
    lhs_offset: usize,
    lhs_strides: &Vec<isize>,
    lhs: &HostSlice,
    rhs_offset: usize,
    rhs_strides: &Vec<isize>,
    rhs: &HostSlice,
    result: &mut HostSliceMut,
) {
    let lhs_id = strided_index(shape, lhs_strides, lhs_offset, id);
    let rhs_id = strided_index(shape, rhs_strides, rhs_offset, id);
    result.data[id] = lhs.data[lhs_id] + rhs.data[rhs_id];
}

#[test]
fn test_ind2sub() {
    let mut indices = vec![0, 0];
    ind2sub(0, &vec![2, 5], &mut indices);
    assert_eq!(&indices, &[0, 0]);
    ind2sub(4, &vec![2, 5], &mut indices);
    assert_eq!(&indices, &[0, 4]);
    ind2sub(5, &vec![2, 5], &mut indices);
    assert_eq!(&indices, &[1, 0]);
    ind2sub(6, &vec![2, 5], &mut indices);
    assert_eq!(&indices, &[1, 1]);
    ind2sub(9, &vec![2, 5], &mut indices);
    assert_eq!(&indices, &[1, 4]);
}

#[test]
fn test_add() {
    {
        let shape = &vec![5, 2];
        let mut result_data = [0.0; 10];
        let mut result = HostSliceMut { data: &mut result_data };
        let lhs_offset = 0;
        let lhs_strides = &vec![1, 5];
        let lhs = HostSlice { data: &[0.0, 1.0, 2.0, 3.0, 4.0, 5.0, 6.0, 7.0, 8.0, 9.0] };
        let rhs_offset = 0;
        let rhs_strides = &vec![1, 5];
        let rhs = HostSlice { data: &[9.0, 8.0, 7.0, 6.0, 5.0, 4.0, 3.0, 2.0, 1.0, 0.0] };
        for id in 0..10 {
            add(
                id,
                shape,
                lhs_offset,
                lhs_strides,
                &lhs,
                rhs_offset,
                rhs_strides,
                &rhs,
                &mut result,
            );
        }
        assert_eq!(result.data, &[9.0; 10]);
    }

    {
        let shape = &vec![5, 2];
        let mut result_data = [0.0; 10];
        let mut result = HostSliceMut { data: &mut result_data };
        let lhs_offset = 9;
        let lhs_strides = &vec![-1, -5];
        let lhs = HostSlice { data: &[0.0, 1.0, 2.0, 3.0, 4.0, 5.0, 6.0, 7.0, 8.0, 9.0] };
        let rhs_offset = 9;
        let rhs_strides = &vec![-1, -5];
        let rhs = HostSlice { data: &[9.0, 8.0, 7.0, 6.0, 5.0, 4.0, 3.0, 2.0, 1.0, 0.0] };
        for id in 0..10 {
            add(
                id,
                shape,
                lhs_offset,
                lhs_strides,
                &lhs,
                rhs_offset,
                rhs_strides,
                &rhs,
                &mut result,
            );
        }
        assert_eq!(result.data, &[9.0; 10]);
    }

    {
        // Two views of one 2x2x3 source holding 1..12: the first row of each
        // submatrix, and the last row of each submatrix with its elements
        // reversed.
        let source = [1.0, 2.0, 3.0, 4.0, 5.0, 6.0, 7.0, 8.0, 9.0, 10.0, 11.0, 12.0];
        let lhs_array = HostSlice { data: &source };
        let lhs_strides = &vec![6, 3, 1];
        let lhs_offset = 0;

        let rhs_array = HostSlice { data: &source };
        let rhs_strides = &vec![6, 3, -1];
        let rhs_offset = 5;

        let mut result_data = [0.0; 6];
        let mut result = HostSliceMut { data: &mut result_data };
        let shape = &vec![2, 1, 3];

        for id in 0..6 {
            add(
                id,
                shape,
                lhs_offset,
                lhs_strides,
                &lhs_array,
                rhs_offset,
                rhs_strides,
                &rhs_array,
                &mut result,
            );
        }
        assert_eq!(result.data, &[7.0, 7.0, 7.0, 19.0, 19.0, 19.0]);
    }
}
