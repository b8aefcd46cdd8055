use megenginelite_rs::DataType;
use megenginelite_rs::DeviceType;
use megenginelite_rs::Layout;
use megenginelite_rs::Tensor;

fn get_tensor(h: usize, w: usize) -> Tensor {
    let mut tensor = Tensor::host().unwrap();
    tensor.set_layout(Layout {
        data_type: DataType::U8,
        shapes: &[h, w],
    });
    tensor
}

#[test]
fn tensor_test_basis() {
    let tensor = get_tensor(100, 200);
    assert!(!tensor.is_pinned_host());
    assert_eq!(tensor.dev_type(), DeviceType::CPU);
    assert_eq!(tensor.nbytes(), 20000);
    assert_eq!(tensor.shape()[0], 100);
    assert_eq!(tensor.shape()[1], 200);
    assert!(tensor.is_continue());
}

#[test]
fn fresh_host_tensor_is_empty() {
    let tensor = Tensor::host().unwrap();
    assert_eq!(tensor.shape().len(), 0);
    assert_eq!(tensor.nbytes(), 0);
    assert_eq!(tensor.dtype(), DataType::U8);
    assert_eq!(tensor.dev_type(), DeviceType::CPU);
    assert_eq!(tensor.dev_id(), 0);
    assert_eq!(tensor.byte_offset(), 0);
    assert!(tensor.is_host());
}

#[test]
fn device_tensor_flags() {
    let tensor = Tensor::device(DeviceType::CUDA, 3).unwrap();
    assert_eq!(tensor.dev_type(), DeviceType::CUDA);
    assert_eq!(tensor.dev_id(), 3);
    assert!(!tensor.is_pinned_host());
    assert!(!tensor.is_host());
}

#[test]
fn pinned_host_tensor_flags() {
    let tensor = Tensor::pinned_host(DeviceType::CUDA, 1).unwrap();
    assert_eq!(tensor.dev_type(), DeviceType::CUDA);
    assert_eq!(tensor.dev_id(), 1);
    assert!(tensor.is_pinned_host());
    assert!(tensor.is_host());
}

#[test]
fn nbytes_follows_layout() {
    let mut tensor = Tensor::host().unwrap();
    tensor.set_layout(Layout {
        data_type: DataType::F32,
        shapes: &[1, 3, 224, 224],
    });
    assert_eq!(tensor.shape(), &[1, 3, 224, 224]);
    assert_eq!(tensor.dtype(), DataType::F32);
    assert_eq!(tensor.nbytes(), 1 * 3 * 224 * 224 * 4);
}

#[test]
fn nbytes_zero_extent() {
    let mut tensor = Tensor::host().unwrap();
    tensor.set_layout(Layout {
        data_type: DataType::I64,
        shapes: &[5, 0, 7],
    });
    assert_eq!(tensor.nbytes(), 0);
}

#[test]
fn layout_as_raw_widens() {
    let layout = Layout {
        data_type: DataType::I32,
        shapes: &[2, 3],
    };
    let raw = layout.as_raw();
    assert_eq!(raw.ndim, 2);
    assert_eq!(raw.data_type, DataType::I32);
    assert_eq!(raw.shapes, [2, 3, 0, 0, 0, 0, 0]);
}

#[test]
fn layout_default_is_empty_f32() {
    let layout = Layout::default();
    assert_eq!(layout.shapes.len(), 0);
    assert_eq!(layout.data_type, DataType::F32);
}
