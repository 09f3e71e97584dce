//! A lazy tensor engine: computation graphs are built without running any
//! work and are turned into a plan of compute dispatches on request.

pub mod binary;
pub mod builder;
pub mod compile;
pub mod conv;
pub mod cpu_buffer;
pub mod dtype;
pub mod error;
pub mod gemm;
pub mod gpu_buffer;
pub mod graph;
pub mod index_write;
pub mod kernels;
pub mod layer_norm;
pub mod layout;
pub mod lazy_op;
pub mod matmul;
pub mod meta;
pub mod model;
pub mod nn;
pub mod permute;
pub mod pipeline_pool;
pub mod planner;
pub mod pool;
pub mod reshape;
pub mod resolve;
pub mod schedule;
pub mod semantics;
pub mod shape;
pub mod storage;
pub mod tensor;
pub mod tensor_id;
pub mod transfer;
pub mod unary;
pub mod uniform;
pub mod view;
pub mod workgroup;

pub use dtype::DType;
pub use error::{DeviceError, OperationError, TensorError};
pub use graph::Graph;
pub use shape::{Shape, Strides};
pub use storage::{Device, Storage};
pub use tensor::{Tensor, Transfer};
pub use tensor_id::TensorId;
pub use view::StorageView;
