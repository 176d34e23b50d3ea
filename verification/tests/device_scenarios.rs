//! End-to-end scenarios on a real compute adapter: upload, dispatch and
//! download.  Each test passes trivially when no adapter supporting the
//! default device limits is present, since the library's contracts assume
//! those limits.

use wgpu_array::array::{upload, HostArray, WgpuArray};
use wgpu_array::device::WgpuDevice;
use wgpu_array::dispatch::{binary_elementwise, BinaryOperator};
use wgpu_array::indexing::default_strides;

fn acquire() -> Option<WgpuDevice> {
    let instance = wgpu::Instance::new(wgpu::Backends::all());
    let adapter = futures::executor::block_on(
        instance.request_adapter(&wgpu::RequestAdapterOptions::default()),
    )?;
    let (device, queue) = futures::executor::block_on(adapter.request_device(
        &wgpu::DeviceDescriptor {
            label: None,
            features: wgpu::Features::empty(),
            limits: wgpu::Limits::default(),
        },
        None,
    ))
    .ok()?;
    Some(WgpuDevice::from_parts(device, adapter, queue))
}

fn host_f32(data: &[f32], dim: Vec<usize>) -> HostArray {
    let strides = default_strides(&dim);
    HostArray { data: data.iter().map(|x| x.to_bits()).collect(), dim, strides, offset: 0 }
}

fn download(dev: &WgpuDevice, view: &WgpuArray) -> Vec<f32> {
    let host = view.into_cpu(dev).expect("readback failed");
    host.logical_elements().into_iter().map(f32::from_bits).collect()
}

#[test]
fn gpu_add_5x5() {
    let Some(mut dev) = acquire() else {
        return;
    };
    let a = upload(&mut dev, &host_f32(&[2.0; 25], vec![5, 5]));
    let b = upload(&mut dev, &host_f32(&[3.0; 25], vec![5, 5]));
    let c = binary_elementwise(&mut dev, &a, &b, BinaryOperator::Add);
    assert_eq!(c.dim, vec![5, 5]);
    assert_eq!(download(&dev, &c), vec![5.0; 25]);
}

#[test]
fn gpu_transposed_download_2x5() {
    let Some(mut dev) = acquire() else {
        return;
    };
    let data: Vec<f32> = (0..10).map(|x| x as f32).collect();
    let a = upload(&mut dev, &host_f32(&data, vec![2, 5]));
    let t = WgpuArray {
        storage_buffer: a.storage_buffer.clone(),
        ptr: a.ptr,
        len: a.len,
        dim: vec![5, 2],
        strides: vec![1, 5],
    };
    assert_eq!(download(&dev, &t), vec![0.0, 5.0, 1.0, 6.0, 2.0, 7.0, 3.0, 8.0, 4.0, 9.0]);
}

#[test]
fn gpu_sliced_reversed_add_2x2x3() {
    let Some(mut dev) = acquire() else {
        return;
    };
    let data: Vec<f32> = (1..13).map(|x| x as f32).collect();
    let a = upload(&mut dev, &host_f32(&data, vec![2, 2, 3]));
    // The first row of each submatrix, and the last row of each submatrix
    // with its elements reversed: element offset 5, so synthetic pointer
    // 20 bytes past the base.
    let b = WgpuArray {
        storage_buffer: a.storage_buffer.clone(),
        ptr: a.ptr,
        len: a.len,
        dim: vec![2, 1, 3],
        strides: vec![6, 3, 1],
    };
    let d = WgpuArray {
        storage_buffer: a.storage_buffer.clone(),
        ptr: a.ptr + 4 * 5,
        len: a.len,
        dim: vec![2, 1, 3],
        strides: vec![6, 3, -1],
    };
    let sum = binary_elementwise(&mut dev, &b, &d, BinaryOperator::Add);
    assert_eq!(download(&dev, &sum), vec![7.0, 7.0, 7.0, 19.0, 19.0, 19.0]);
}
