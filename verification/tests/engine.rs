//! End-to-end tests of the CPU execution engine through a reference numeric
//! backend over real IEEE-754 arithmetic.

use ratchet_cpu::cast::{cpu_cast, Cast};
use ratchet_cpu::concat::{cpu_concat, Concat};
use ratchet_cpu::dispatch::{
    apply_operation, Binary, BinaryOp, CPUOperation, LazyOp, Matmul, Unary, UnaryOp,
};
use ratchet_cpu::gemm::gemm;
use ratchet_cpu::kernels::{binary_apply_fn, binary_apply_inplace, unary_apply_fn};
use ratchet_cpu::rope::{cpu_rope, slice, transpose, RoPE};
use ratchet_cpu::scalar::ScalarOp;
use ratchet_cpu::select::{cpu_index_select, IndexSelect};
use ratchet_cpu::shape::{Shape, Strides};
use ratchet_cpu::strided::StridedIterator;
use ratchet_cpu::tensor::{DType, OpKind, OperationError, Tensor};

fn scalar_backend(op: ScalarOp, a: u32, b: u32) -> u32 {
    let fa = f32::from_bits(a);
    let fb = f32::from_bits(b);
    match op {
        ScalarOp::Add => (fa + fb).to_bits(),
        ScalarOp::Sub => (fa - fb).to_bits(),
        ScalarOp::Mul => (fa * fb).to_bits(),
        ScalarOp::Div => (fa / fb).to_bits(),
        ScalarOp::Neg => (-fa).to_bits(),
        ScalarOp::Exp => fa.exp().to_bits(),
        ScalarOp::Ln => fa.ln().to_bits(),
        ScalarOp::Sin => fa.sin().to_bits(),
        ScalarOp::Cos => fa.cos().to_bits(),
        ScalarOp::IntToF32 => (a as f32).to_bits(),
        ScalarOp::I8ToF32 => ((a as u8 as i8) as f32).to_bits(),
        ScalarOp::I32ToF32 => ((a as i32) as f32).to_bits(),
        ScalarOp::F32ToI32 => (fa as i32) as u32,
        ScalarOp::F32ToU32 => fa as u32,
        ScalarOp::U32ToF32 => (a as f32).to_bits(),
        ScalarOp::F32ToF16 => half::f16::from_f32(fa).to_bits() as u32,
        ScalarOp::F16ToF32 => f32::from(half::f16::from_bits(a as u16)).to_bits(),
        ScalarOp::F32ToBf16 => half::bf16::from_f32(fa).to_bits() as u32,
        ScalarOp::Bf16ToF32 => f32::from(half::bf16::from_bits(a as u16)).to_bits(),
    }
}

fn bits(v: f32) -> u32 {
    v.to_bits()
}

fn vals(t: &Tensor) -> Vec<f32> {
    t.to_elements().iter().map(|b| f32::from_bits(*b)).collect()
}

fn f32_tensor(dims: Vec<usize>, values: Vec<f32>) -> Tensor {
    let data: Vec<u32> = values.iter().map(|v| v.to_bits()).collect();
    Tensor::new_contiguous(DType::F32, Shape::new(dims), data)
}

fn empty_dst(dt: DType, dims: Vec<usize>) -> Tensor {
    let n: usize = dims.iter().product();
    Tensor::new_contiguous(dt, Shape::new(dims), vec![0u32; n])
}

#[test]
fn strided_iterator_canonical_is_sequential() {
    let shape = Shape::new(vec![2, 3]);
    let strides = Strides::from_shape(&shape);
    let mut it = StridedIterator::new(&shape, &strides, 0);
    let mut got = Vec::new();
    while let Some(o) = it.next() {
        got.push(o);
    }
    assert_eq!(got, vec![0, 1, 2, 3, 4, 5]);
}

#[test]
fn strided_iterator_canonical_with_offset() {
    let shape = Shape::new(vec![2, 2]);
    let strides = Strides::from_shape(&shape);
    let mut it = StridedIterator::new(&shape, &strides, 10);
    let mut got = Vec::new();
    while let Some(o) = it.next() {
        got.push(o);
    }
    assert_eq!(got, vec![10, 11, 12, 13]);
}

#[test]
fn strided_iterator_transposed_matches_nested_loop() {
    // A [2, 3] row-major buffer viewed transposed as [3, 2]: strides [1, 3].
    let shape = Shape::new(vec![3, 2]);
    let strides = Strides::new(vec![1, 3]);
    let mut it = StridedIterator::new(&shape, &strides, 0);
    let mut got = Vec::new();
    while let Some(o) = it.next() {
        got.push(o);
    }
    // The naive nested loop over the transposed logical shape:
    let mut expect = Vec::new();
    for i in 0..3 {
        for j in 0..2 {
            expect.push(i * 1 + j * 3);
        }
    }
    assert_eq!(got, expect);
}

#[test]
fn strided_iterator_zero_element_terminates() {
    let shape = Shape::new(vec![0, 4]);
    let strides = Strides::from_shape(&shape);
    let mut it = StridedIterator::new(&shape, &strides, 0);
    assert_eq!(it.next(), None);
}

#[test]
fn cast_f16_round_trip_exact() {
    let input = f32_tensor(vec![3], vec![0.5, -2.0, 1.0]);
    let dst16 = empty_dst(DType::F16, vec![3]);
    let half_t = cpu_cast(
        Cast { input, dst_dt: DType::F16 },
        dst16,
        scalar_backend,
    )
    .unwrap();
    assert_eq!(half_t.dt(), DType::F16);
    let dst32 = empty_dst(DType::F32, vec![3]);
    let back = cpu_cast(
        Cast { input: half_t, dst_dt: DType::F32 },
        dst32,
        scalar_backend,
    )
    .unwrap();
    assert_eq!(vals(&back), vec![0.5, -2.0, 1.0]);
}

#[test]
fn cast_f32_to_i32_truncates_toward_zero() {
    let input = f32_tensor(vec![2], vec![1.9, -1.9]);
    let dst = empty_dst(DType::I32, vec![2]);
    let out = cpu_cast(Cast { input, dst_dt: DType::I32 }, dst, scalar_backend).unwrap();
    let words = out.to_elements();
    assert_eq!(words[0] as i32, 1);
    assert_eq!(words[1] as i32, -1);
}

#[test]
fn cast_same_dtype_returns_input_unchanged() {
    let input = f32_tensor(vec![2], vec![4.0, 5.0]);
    let dst = empty_dst(DType::F32, vec![2]);
    let out = cpu_cast(Cast { input, dst_dt: DType::F32 }, dst, scalar_backend).unwrap();
    assert_eq!(vals(&out), vec![4.0, 5.0]);
}

#[test]
fn cast_unsupported_pair_is_unimplemented() {
    let input = f32_tensor(vec![1], vec![1.0]);
    let dst16 = empty_dst(DType::F16, vec![1]);
    let half_t = cpu_cast(
        Cast { input, dst_dt: DType::F16 },
        dst16,
        scalar_backend,
    )
    .unwrap();
    let dst = empty_dst(DType::I32, vec![1]);
    let r = cpu_cast(Cast { input: half_t, dst_dt: DType::I32 }, dst, scalar_backend);
    assert!(matches!(r, Err(OperationError::Unimplemented(OpKind::Cast))));
}

#[test]
fn concat_with_itself_doubles_axis() {
    // For each plain float dtype: axis 1 of a [2, 2] doubles to [2, 4], and
    // each destination row holds the original row twice.
    for dt in [DType::F32, DType::F16, DType::BF16] {
        let data: Vec<u32> = vec![10, 20, 30, 40];
        let a = Tensor::new_contiguous(dt, Shape::new(vec![2, 2]), data.clone());
        let b = Tensor::new_contiguous(dt, Shape::new(vec![2, 2]), data.clone());
        let n: usize = 8;
        let dst = Tensor::new_contiguous(dt, Shape::new(vec![2, 4]), vec![0u32; n]);
        let out = cpu_concat(Concat { inputs: vec![a, b], dim: 1 }, dst).unwrap();
        assert_eq!(out.shape().to_vec(), vec![2, 4]);
        assert_eq!(out.to_elements(), vec![10, 20, 10, 20, 30, 40, 30, 40]);
    }
}

#[test]
fn concat_along_first_axis() {
    let a = f32_tensor(vec![1, 2], vec![1.0, 2.0]);
    let b = f32_tensor(vec![1, 2], vec![3.0, 4.0]);
    let dst = empty_dst(DType::F32, vec![2, 2]);
    let out = cpu_concat(Concat { inputs: vec![a, b], dim: 0 }, dst).unwrap();
    assert_eq!(vals(&out), vec![1.0, 2.0, 3.0, 4.0]);
}

#[test]
fn concat_dtype_mismatch_reports_first_bad_input() {
    let a = f32_tensor(vec![1, 2], vec![1.0, 2.0]);
    let b = Tensor::new_contiguous(DType::F16, Shape::new(vec![1, 2]), vec![1, 2]);
    let dst = empty_dst(DType::F32, vec![2, 2]);
    let r = cpu_concat(Concat { inputs: vec![a, b], dim: 0 }, dst);
    assert!(matches!(
        r,
        Err(OperationError::DTypeMismatch { expected: DType::F32, actual: DType::F16 })
    ));
}

#[test]
fn concat_unsupported_dtype() {
    let a = Tensor::new_contiguous(DType::I32, Shape::new(vec![1]), vec![1]);
    let dst = Tensor::new_contiguous(DType::I32, Shape::new(vec![2]), vec![0, 0]);
    let r = cpu_concat(Concat { inputs: vec![a], dim: 0 }, dst);
    assert!(matches!(r, Err(OperationError::UnsupportedDType(DType::I32))));
}

#[test]
fn index_select_all_indices_reproduces_source() {
    let src = f32_tensor(vec![3, 2], vec![1.0, 2.0, 3.0, 4.0, 5.0, 6.0]);
    let indices = Tensor::new_contiguous(DType::I32, Shape::new(vec![3]), vec![0, 1, 2]);
    let dst = empty_dst(DType::F32, vec![3, 2]);
    let out = cpu_index_select(IndexSelect { src, indices, dim: 0 }, dst, scalar_backend)
        .unwrap();
    assert_eq!(vals(&out), vec![1.0, 2.0, 3.0, 4.0, 5.0, 6.0]);
}

#[test]
fn index_select_repeated_index_copies_row() {
    let src = f32_tensor(vec![3, 2], vec![1.0, 2.0, 3.0, 4.0, 5.0, 6.0]);
    let indices = Tensor::new_contiguous(DType::I32, Shape::new(vec![3]), vec![1, 1, 1]);
    let dst = empty_dst(DType::F32, vec![3, 2]);
    let out = cpu_index_select(IndexSelect { src, indices, dim: 0 }, dst, scalar_backend)
        .unwrap();
    assert_eq!(vals(&out), vec![3.0, 4.0, 3.0, 4.0, 3.0, 4.0]);
}

#[test]
fn index_select_second_axis() {
    let src = f32_tensor(vec![2, 3], vec![1.0, 2.0, 3.0, 4.0, 5.0, 6.0]);
    let indices = Tensor::new_contiguous(DType::I32, Shape::new(vec![2]), vec![2, 0]);
    let dst = empty_dst(DType::F32, vec![2, 2]);
    let out = cpu_index_select(IndexSelect { src, indices, dim: 1 }, dst, scalar_backend)
        .unwrap();
    assert_eq!(vals(&out), vec![3.0, 1.0, 6.0, 4.0]);
}

#[test]
fn index_select_requires_i32_indices() {
    let src = f32_tensor(vec![2], vec![1.0, 2.0]);
    let indices = f32_tensor(vec![1], vec![0.0]);
    let dst = empty_dst(DType::F32, vec![1]);
    let r = cpu_index_select(IndexSelect { src, indices, dim: 0 }, dst, scalar_backend);
    assert!(matches!(
        r,
        Err(OperationError::DTypeMismatch { expected: DType::I32, actual: DType::F32 })
    ));
}

#[test]
fn index_select_quantized_dequantizes_first() {
    // Block size 2, scales 0.5 and 2.0: elements are 0.5*[2, 4] and 2.0*[1, 3].
    let qs: Vec<u8> = vec![2u8, 4u8, 1u8, 3u8];
    let scales = vec![bits(0.5), bits(2.0)];
    let src = Tensor::new_quant(2, Shape::new(vec![2, 2]), scales, qs);
    let indices = Tensor::new_contiguous(DType::I32, Shape::new(vec![2]), vec![1, 0]);
    let dst = empty_dst(DType::F32, vec![2, 2]);
    let out = cpu_index_select(IndexSelect { src, indices, dim: 0 }, dst, scalar_backend)
        .unwrap();
    assert_eq!(out.dt(), DType::F32);
    assert_eq!(vals(&out), vec![2.0, 6.0, 1.0, 2.0]);
}

#[test]
fn quantized_negative_bytes_dequantize() {
    let qs: Vec<u8> = vec![(-3i8) as u8, 5u8];
    let scales = vec![bits(1.5)];
    let t = Tensor::new_quant(2, Shape::new(vec![2]), scales, qs);
    let dq = t.dequantized(scalar_backend);
    let got: Vec<f32> = dq.iter().map(|b| f32::from_bits(*b)).collect();
    assert_eq!(got, vec![-4.5, 7.5]);
}

#[test]
fn gemm_two_by_two() {
    let a: Vec<u32> = vec![bits(1.0), bits(2.0), bits(3.0), bits(4.0)];
    let b: Vec<u32> = vec![bits(5.0), bits(6.0), bits(7.0), bits(8.0)];
    let a_strides = Strides::new(vec![2, 1]);
    let b_strides = Strides::new(vec![2, 1]);
    let c = gemm(&a, &a_strides, &b, &b_strides, 1, 2, 2, 2, scalar_backend);
    let got: Vec<f32> = c.iter().map(|x| f32::from_bits(*x)).collect();
    assert_eq!(got, vec![19.0, 22.0, 43.0, 50.0]);
}

#[test]
fn gemm_transposed_operand() {
    // A stored column-major (the transpose of [[1, 2], [3, 4]] laid out
    // row-major) read through swapped strides gives the same product.
    let a_t: Vec<u32> = vec![bits(1.0), bits(3.0), bits(2.0), bits(4.0)];
    let b: Vec<u32> = vec![bits(5.0), bits(6.0), bits(7.0), bits(8.0)];
    let a_strides = Strides::new(vec![1, 2]);
    let b_strides = Strides::new(vec![2, 1]);
    let c = gemm(&a_t, &a_strides, &b, &b_strides, 1, 2, 2, 2, scalar_backend);
    let got: Vec<f32> = c.iter().map(|x| f32::from_bits(*x)).collect();
    assert_eq!(got, vec![19.0, 22.0, 43.0, 50.0]);
}

#[test]
fn matmul_through_dispatch() {
    let a = f32_tensor(vec![2, 2], vec![1.0, 2.0, 3.0, 4.0]);
    let b = f32_tensor(vec![2, 2], vec![5.0, 6.0, 7.0, 8.0]);
    let dst = empty_dst(DType::F32, vec![2, 2]);
    let out = apply_operation(LazyOp::Matmul(Matmul { a, b }), dst, scalar_backend).unwrap();
    assert_eq!(vals(&out), vec![19.0, 22.0, 43.0, 50.0]);
}

#[test]
fn rope_of_zeros_is_zeros() {
    for base in [100.0f32, 10000.0, 123.0] {
        let input = f32_tensor(vec![1, 2, 3, 4], vec![0.0; 24]);
        let dst = empty_dst(DType::F32, vec![1, 2, 3, 4]);
        let out = apply_operation(
            LazyOp::RoPE(RoPE { input, dim: 4, base: base.to_bits(), offset: 0 }),
            dst,
            scalar_backend,
        )
        .unwrap();
        for v in vals(&out) {
            assert_eq!(v, 0.0);
        }
    }
}

#[test]
fn rope_position_zero_rotates_identically() {
    // One position at offset 0: every angle is zero, so the rotated halves
    // come back unchanged and the tail passes through.
    let values = vec![1.0, 2.0, 3.0, 4.0];
    let input = f32_tensor(vec![1, 1, 1, 4], values.clone());
    let dst = empty_dst(DType::F32, vec![1, 1, 1, 4]);
    let out = cpu_rope(
        RoPE { input, dim: 2, base: bits(10000.0), offset: 0 },
        dst,
        scalar_backend,
    )
    .unwrap();
    assert_eq!(vals(&out), values);
}

#[test]
fn rope_rejects_non_f32() {
    let input = Tensor::new_contiguous(DType::F16, Shape::new(vec![1, 1, 1, 4]), vec![0; 4]);
    let dst = empty_dst(DType::F16, vec![1, 1, 1, 4]);
    let r = cpu_rope(
        RoPE { input, dim: 2, base: bits(10000.0), offset: 0 },
        dst,
        scalar_backend,
    );
    assert!(matches!(r, Err(OperationError::Unimplemented(OpKind::RoPE))));
}

#[test]
fn dispatch_unimplemented_kinds_fail_loudly() {
    for (op, kind) in [
        (LazyOp::Softmax, OpKind::Softmax),
        (LazyOp::Reindex, OpKind::Reindex),
        (LazyOp::Norm, OpKind::Norm),
        (LazyOp::Conv, OpKind::Conv),
        (LazyOp::IndexWrite, OpKind::IndexWrite),
        (LazyOp::Cache, OpKind::Cache),
        (LazyOp::Const, OpKind::Const),
        (LazyOp::View, OpKind::View),
    ] {
        let dst = empty_dst(DType::F32, vec![1]);
        let r = apply_operation(op, dst, scalar_backend);
        match r {
            Err(OperationError::Unimplemented(k)) => assert_eq!(k, kind),
            _ => panic!("expected an unimplemented error"),
        }
    }
}

#[test]
fn binary_through_dispatch() {
    let lhs = f32_tensor(vec![3], vec![1.0, 2.0, 3.0]);
    let rhs = f32_tensor(vec![3], vec![10.0, 20.0, 30.0]);
    let dst = empty_dst(DType::F32, vec![3]);
    let out = apply_operation(
        LazyOp::Binary(Binary { op: BinaryOp::Add, lhs, rhs }),
        dst,
        scalar_backend,
    )
    .unwrap();
    assert_eq!(vals(&out), vec![11.0, 22.0, 33.0]);
}

#[test]
fn binary_rejects_integer_dtype() {
    let lhs = Tensor::new_contiguous(DType::I32, Shape::new(vec![1]), vec![1]);
    let rhs = Tensor::new_contiguous(DType::I32, Shape::new(vec![1]), vec![2]);
    let dst = empty_dst(DType::I32, vec![1]);
    let r = apply_operation(
        LazyOp::Binary(Binary { op: BinaryOp::Mul, lhs, rhs }),
        dst,
        scalar_backend,
    );
    assert!(matches!(r, Err(OperationError::UnsupportedDType(DType::I32))));
}

#[test]
fn unary_through_dispatch() {
    let input = f32_tensor(vec![2], vec![1.5, -2.5]);
    let dst = empty_dst(DType::F32, vec![2]);
    let out = apply_operation(
        LazyOp::Unary(Unary { op: UnaryOp::Neg, input }),
        dst,
        scalar_backend,
    )
    .unwrap();
    assert_eq!(vals(&out), vec![-1.5, 2.5]);
}

#[test]
fn unary_apply_fn_maps_elements() {
    let input = f32_tensor(vec![3], vec![1.0, 2.0, 3.0]);
    let mut dst = empty_dst(DType::F32, vec![3]);
    let double = |x: u32| (f32::from_bits(x) * 2.0).to_bits();
    unary_apply_fn(&input, &mut dst, double).unwrap();
    assert_eq!(vals(&dst), vec![2.0, 4.0, 6.0]);
}

#[test]
fn binary_apply_fn_zips_elements() {
    let lhs = f32_tensor(vec![2], vec![5.0, 7.0]);
    let rhs = f32_tensor(vec![2], vec![2.0, 3.0]);
    let mut dst = empty_dst(DType::F32, vec![2]);
    let sub = |x: u32, y: u32| (f32::from_bits(x) - f32::from_bits(y)).to_bits();
    binary_apply_fn(&lhs, &rhs, &mut dst, sub).unwrap();
    assert_eq!(vals(&dst), vec![3.0, 4.0]);
}

#[test]
fn binary_apply_inplace_matches_binary_apply() {
    let lhs = f32_tensor(vec![2], vec![5.0, 7.0]);
    let rhs = f32_tensor(vec![2], vec![2.0, 3.0]);
    let mut dst = empty_dst(DType::F32, vec![2]);
    let mul = |x: u32, y: u32| (f32::from_bits(x) * f32::from_bits(y)).to_bits();
    binary_apply_inplace(&lhs, &rhs, &mut dst, mul).unwrap();
    assert_eq!(vals(&dst), vec![10.0, 21.0]);
}

#[test]
fn unary_apply_fn_rejects_quantized_input() {
    let src = Tensor::new_quant(2, Shape::new(vec![2]), vec![bits(1.0)], vec![1u8, 2u8]);
    let mut dst = empty_dst(DType::F32, vec![2]);
    let ident = |x: u32| x;
    let r = unary_apply_fn(&src, &mut dst, ident);
    assert_eq!(r, Err(OperationError::UnsupportedDType(DType::Q8_0F(2))));
}

#[test]
fn slice_extracts_box() {
    // [2, 3] row-major: take column range 1..3 of both rows.
    let src: Vec<u32> = vec![1, 2, 3, 4, 5, 6];
    let strides = Strides::new(vec![3, 1]);
    let out = slice(&src, &strides, &vec![0, 1], &vec![2, 3]);
    assert_eq!(out, vec![2, 3, 5, 6]);
}

#[test]
fn transpose_scatters_through_swapped_strides() {
    // The offset-remapping contract: the k-th element of the source lands at
    // the offset the swapped shape and swapped strides give the k-th
    // multi-index. For [2, 3] with axes swapped, the swapped view is [3, 2]
    // with steps [1, 3], so source element k = 2i + j lands at i + 3j.
    let src: Vec<u32> = vec![1, 2, 3, 4, 5, 6];
    let shape = Shape::new(vec![2, 3]);
    let out = transpose(src, &shape, 0, 1).unwrap();
    assert_eq!(out, vec![1, 3, 5, 2, 4, 6]);
}

#[test]
fn transpose_same_axis_is_identity() {
    let src: Vec<u32> = vec![1, 2, 3, 4];
    let shape = Shape::new(vec![2, 2]);
    let out = transpose(src.clone(), &shape, 1, 1).unwrap();
    assert_eq!(out, src);
}

#[test]
fn transpose_rejects_out_of_range_axis() {
    let src: Vec<u32> = vec![1, 2];
    let shape = Shape::new(vec![2]);
    let r = transpose(src, &shape, 0, 5);
    assert_eq!(r, Err(OperationError::InvalidDims));
}

#[test]
fn materialize_view_through_strides() {
    // The same buffer as a transposed view materializes in transposed order.
    let data: Vec<u32> = vec![1, 2, 3, 4, 5, 6];
    let view = Tensor::new_flat(
        DType::U32,
        Shape::new(vec![3, 2]),
        Strides::new(vec![1, 3]),
        data,
    );
    assert_eq!(view.to_elements(), vec![1, 4, 2, 5, 3, 6]);
}

#[test]
fn cpu_operation_trait_dispatches_binary() {
    let lhs = f32_tensor(vec![2], vec![8.0, 6.0]);
    let rhs = f32_tensor(vec![2], vec![2.0, 3.0]);
    let dst = empty_dst(DType::F32, vec![2]);
    let out = Binary { op: BinaryOp::Div, lhs, rhs }.apply_cpu(dst, scalar_backend).unwrap();
    assert_eq!(vals(&out), vec![4.0, 2.0]);
}

#[test]
fn rope_nonzero_position_rotates() {
    // One head, two positions, head_dim 2, dim 2: half_dim = 1, so
    // inv_freq = [1.0] and theta[p] = p + offset. Expected values computed
    // with the same IEEE arithmetic the backend uses.
    let values = vec![1.0f32, 2.0, 3.0, 4.0];
    let input = f32_tensor(vec![1, 1, 2, 2], values.clone());
    let dst = empty_dst(DType::F32, vec![1, 1, 2, 2]);
    let out = cpu_rope(
        RoPE { input, dim: 2, base: bits(10000.0), offset: 1 },
        dst,
        scalar_backend,
    )
    .unwrap();
    // x1 = [1, 3] (channel 0 of each position), x2 = [2, 4] (channel 1).
    let theta = [1.0f32, 2.0];
    let x1 = [1.0f32, 3.0];
    let x2 = [2.0f32, 4.0];
    let mut expect = Vec::new();
    for p in 0..2 {
        expect.push(x1[p] * theta[p].cos() - x2[p] * theta[p].sin());
    }
    let mut expect2 = Vec::new();
    for p in 0..2 {
        expect2.push(x1[p] * theta[p].sin() + x2[p] * theta[p].cos());
    }
    // Concatenated along the last axis: position p holds [r1[p], r2[p]].
    let got = vals(&out);
    assert_eq!(got, vec![expect[0], expect2[0], expect[1], expect2[1]]);
}

#[test]
fn cast_through_dispatch() {
    let input = f32_tensor(vec![2], vec![2.5, -0.5]);
    let dst = empty_dst(DType::BF16, vec![2]);
    let out = apply_operation(
        LazyOp::Cast(Cast { input, dst_dt: DType::BF16 }),
        dst,
        scalar_backend,
    )
    .unwrap();
    assert_eq!(out.dt(), DType::BF16);
    let words = out.to_elements();
    assert_eq!(words[0], half::bf16::from_f32(2.5).to_bits() as u32);
    assert_eq!(words[1], half::bf16::from_f32(-0.5).to_bits() as u32);
}

#[test]
fn select_through_dispatch_quantized() {
    let qs: Vec<u8> = vec![1u8, 2u8, 3u8, 4u8];
    let scales = vec![bits(2.0)];
    let src = Tensor::new_quant(4, Shape::new(vec![4]), scales, qs);
    let indices = Tensor::new_contiguous(DType::I32, Shape::new(vec![2]), vec![3, 0]);
    let dst = empty_dst(DType::F32, vec![2]);
    let out = apply_operation(
        LazyOp::Select(IndexSelect { src, indices, dim: 0 }),
        dst,
        scalar_backend,
    )
    .unwrap();
    assert_eq!(vals(&out), vec![8.0, 2.0]);
}

#[test]
fn unary_exp_through_dispatch() {
    let input = f32_tensor(vec![2], vec![0.0, 1.0]);
    let dst = empty_dst(DType::F32, vec![2]);
    let out = apply_operation(
        LazyOp::Unary(Unary { op: UnaryOp::Exp, input }),
        dst,
        scalar_backend,
    )
    .unwrap();
    let got = vals(&out);
    assert_eq!(got[0], 1.0);
    assert_eq!(got[1], 1.0f32.exp());
}
