//! The offline model compiler: validates a decoded artifact's dimensions,
//! registers the shapes it needs, and emits an immutable compiled model.

use crate::error::ConfigurationError;
use crate::matrix::Matrix;
use crate::model_data::{FieldsDescribe, ModelData, Weights};
use crate::shapes::ShapeRegistry;
use vstd::prelude::*;

verus! {

/// A decoded but not yet validated trained artifact: normalization
/// statistics, the ordered field list, three kernels with three flat
/// biases, and the activation slope.
#[derive(Debug)]
pub struct RawModelRecord {
    pub mean: Vec<(String, u32)>,
    pub std: Vec<(String, u32)>,
    pub fields: Vec<String>,
    pub l0_bias: Vec<u32>,
    pub l0_kernel: Matrix,
    pub l1_bias: Vec<u32>,
    pub l1_kernel: Matrix,
    pub l2_bias: Vec<u32>,
    pub l2_kernel: Matrix,
    pub alpha: u32,
}

impl RawModelRecord {
    /// Each kernel's shape agrees with the bias lengths and field list
    /// around it. The two hidden sizes are deliberately not compared here:
    /// that comparison is the compiler's own check.
    pub open spec fn wf(self) -> bool {
        &&& self.l0_kernel@.wf() && self.l0_kernel@.width == self.l0_bias@.len()
            && self.l0_kernel@.height == self.fields@.len()
        &&& self.l1_kernel@.wf() && self.l1_kernel@.width == self.l1_bias@.len()
            && self.l1_kernel@.height == self.l0_bias@.len()
        &&& self.l2_kernel@.wf() && self.l2_kernel@.width == self.l2_bias@.len()
            && self.l2_kernel@.height == self.l1_bias@.len()
    }
}

/// Validates a trained artifact and materializes the compiled model.
///
/// The artifact is rejected with `HiddenSizeMismatch` exactly when its two
/// hidden layers declare different sizes, and with `MultiOutputUnsupported`
/// exactly when the hidden sizes agree but the output is not a single
/// scalar; it is never truncated or padded to fit. On success the input
/// width, hidden size and output width are registered as shapes, and the
/// model holds the artifact's data unchanged.
pub fn compile(registry: &mut ShapeRegistry, record: RawModelRecord) -> (r: Result<
    ModelData,
    ConfigurationError,
>)
    requires
        record.wf(),
        old(registry).wf(),
    ensures
        final(registry).wf(),
        match r {
            Ok(m) => {
                &&& record.l0_bias@.len() == record.l1_bias@.len()
                &&& record.l2_bias@.len() == 1
                &&& m.wf()
                &&& m.norm.mean@ == record.mean@
                &&& m.norm.std@ == record.std@
                &&& m.fields@ == record.fields@
                &&& m.alpha == record.alpha
                &&& m.weights.l0_bias@.elems == record.l0_bias@
                &&& m.weights.l1_bias@.elems == record.l1_bias@
                &&& m.weights.l2_bias@.elems == record.l2_bias@
                &&& m.weights.l0_kernel@ == record.l0_kernel@
                &&& m.weights.l1_kernel@ == record.l1_kernel@
                &&& m.weights.l2_kernel@ == record.l2_kernel@
                &&& final(registry).as_set() == old(registry).as_set().insert(
                    record.fields.len(),
                ).insert(record.l0_bias.len()).insert(record.l2_bias.len())
            },
            Err(ConfigurationError::HiddenSizeMismatch(n0, n1)) => {
                &&& n0 == record.l0_bias@.len()
                &&& n1 == record.l1_bias@.len()
                &&& n0 != n1
                &&& *final(registry) == *old(registry)
            },
            Err(ConfigurationError::MultiOutputUnsupported(o)) => {
                &&& record.l0_bias@.len() == record.l1_bias@.len()
                &&& o == record.l2_bias@.len()
                &&& o != 1
                &&& *final(registry) == *old(registry)
            },
        },
{
    let n0 = record.l0_bias.len();
    let n1 = record.l1_bias.len();
    if n0 != n1 {
        return Err(ConfigurationError::HiddenSizeMismatch(n0, n1));
    }
    let o = record.l2_bias.len();
    if o != 1 {
        return Err(ConfigurationError::MultiOutputUnsupported(o));
    }
    let i_size = record.fields.len();
    registry.register(i_size);
    registry.register(n0);
    registry.register(o);
    let weights = Weights {
        l0_bias: Matrix::from_array(record.l0_bias),
        l0_kernel: record.l0_kernel,
        l1_bias: Matrix::from_array(record.l1_bias),
        l1_kernel: record.l1_kernel,
        l2_bias: Matrix::from_array(record.l2_bias),
        l2_kernel: record.l2_kernel,
    };
    let m = ModelData {
        norm: FieldsDescribe { mean: record.mean, std: record.std },
        weights,
        fields: record.fields,
        alpha: record.alpha,
    };
    Ok(m)
}

} // verus!
