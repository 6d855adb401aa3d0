//! Compiled models and the normalization + forward-pass evaluator.

use crate::error::Error;
use crate::fp::{
    div_bits, fp_div, fp_is_finite, fp_is_nan, fp_is_sign_neg, fp_sub, sub_bits, ZERO_BITS,
};
use crate::matrix::{spec_dot, spec_matrix_add, spec_relu, MatView, Matrix};
use vstd::prelude::*;

verus! {

/// Per-feature normalization statistics: a mean and a standard deviation
/// keyed by feature name. The first pair with a matching name wins.
#[derive(Debug)]
pub struct FieldsDescribe {
    pub mean: Vec<(String, u32)>,
    pub std: Vec<(String, u32)>,
}

/// The six weight tensors of a three-layer network.
#[derive(Debug)]
pub struct Weights {
    pub l0_bias: Matrix,
    pub l0_kernel: Matrix,
    pub l1_bias: Matrix,
    pub l1_kernel: Matrix,
    pub l2_bias: Matrix,
    pub l2_kernel: Matrix,
}

impl Weights {
    /// The input width: the height of the first kernel.
    pub open spec fn input_width(self) -> nat {
        self.l0_kernel@.height
    }

    /// The hidden size declared by the first layer.
    pub open spec fn hidden0(self) -> nat {
        self.l0_bias@.width
    }

    /// The hidden size declared by the second layer.
    pub open spec fn hidden1(self) -> nat {
        self.l1_bias@.width
    }

    /// The output width: the length of the last bias.
    pub open spec fn output_width(self) -> nat {
        self.l2_bias@.width
    }

    /// Every tensor is well formed, biases have height one, and each
    /// kernel's shape agrees with the bias lengths around it.
    pub open spec fn wf(self) -> bool {
        &&& self.l0_bias@.wf() && self.l0_bias@.height == 1
        &&& self.l1_bias@.wf() && self.l1_bias@.height == 1
        &&& self.l2_bias@.wf() && self.l2_bias@.height == 1
        &&& self.l0_kernel@.wf() && self.l0_kernel@.width == self.hidden0()
        &&& self.l1_kernel@.wf() && self.l1_kernel@.width == self.hidden1()
            && self.l1_kernel@.height == self.hidden0()
        &&& self.l2_kernel@.wf() && self.l2_kernel@.width == self.output_width()
            && self.l2_kernel@.height == self.hidden1()
    }
}

/// A compiled model: normalization statistics, weights, the ordered field
/// list, and the activation slope. Immutable once constructed.
#[derive(Debug)]
pub struct ModelData {
    pub norm: FieldsDescribe,
    pub weights: Weights,
    pub fields: Vec<String>,
    pub alpha: u32,
}

/// A list of named values, reduced to its mathematical content: each name
/// as its character sequence.
pub open spec fn pairs_view(s: Seq<(String, u32)>) -> Seq<(Seq<char>, u32)> {
    Seq::new(s.len(), |i: int| (s[i].0@, s[i].1))
}

/// The value of the first pair whose name matches, if any.
pub open spec fn lookup(s: Seq<(Seq<char>, u32)>, name: Seq<char>) -> Option<u32>
    decreases s.len(),
{
    if s.len() == 0 {
        None
    } else if s[0].0 == name {
        Some(s[0].1)
    } else {
        lookup(s.drop_first(), name)
    }
}

/// The matching value, or the bit pattern of zero when the name is absent.
pub open spec fn lookup_or_zero(s: Seq<(Seq<char>, u32)>, name: Seq<char>) -> u32 {
    match lookup(s, name) {
        Some(v) => v,
        None => ZERO_BITS,
    }
}

impl ModelData {
    /// The weights are well formed, the input width matches the field list,
    /// the two hidden sizes agree, and the output is a single scalar.
    pub open spec fn wf(self) -> bool {
        &&& self.weights.wf()
        &&& self.weights.input_width() == self.fields@.len()
        &&& self.weights.hidden0() == self.weights.hidden1()
        &&& self.weights.output_width() == 1
    }

    /// The recorded mean of field `i`.
    pub open spec fn mean_at(self, i: int) -> Option<u32> {
        lookup(pairs_view(self.norm.mean@), self.fields@[i]@)
    }

    /// The recorded standard deviation of field `i`.
    pub open spec fn std_at(self, i: int) -> Option<u32> {
        lookup(pairs_view(self.norm.std@), self.fields@[i]@)
    }

    /// Every field below `n` has both a mean and a standard deviation.
    pub open spec fn stats_complete_upto(self, n: int) -> bool {
        forall|i: int|
            0 <= i < n ==> #[trigger] self.std_at(i) is Some && self.mean_at(i) is Some
    }

    /// Every field of the model has both a mean and a standard deviation.
    pub open spec fn stats_complete(self) -> bool {
        self.stats_complete_upto(self.fields@.len() as int)
    }
}

/// The normalized value of field `i`: the input value (zero when absent)
/// minus the field's mean, divided by the field's standard deviation.
pub open spec fn norm_elem(m: ModelData, input: Seq<(Seq<char>, u32)>, i: int) -> u32 {
    fp_div(
        fp_sub(lookup_or_zero(input, m.fields@[i]@), m.mean_at(i).unwrap()),
        m.std_at(i).unwrap(),
    )
}

/// The normalized feature vector, in field-list order.
pub open spec fn spec_norm_elems(m: ModelData, input: Seq<(Seq<char>, u32)>) -> Seq<u32> {
    Seq::new(m.fields@.len(), |i: int| norm_elem(m, input, i))
}

/// The normalized feature vector as a height-one matrix.
pub open spec fn spec_norm_view(m: ModelData, input: Seq<(Seq<char>, u32)>) -> MatView {
    MatView { width: m.fields@.len(), height: 1nat, elems: spec_norm_elems(m, input) }
}

/// The forward pass: two affine layers with the leaky rectifier between and
/// after them, a final affine layer, and the single scalar it produces.
pub open spec fn spec_predict(m: ModelData, x: MatView) -> u32 {
    let a1 = spec_dot(x, m.weights.l0_kernel@);
    let a2 = spec_matrix_add(a1, m.weights.l0_bias@);
    let a3 = spec_relu(a2, m.alpha);
    let b1 = spec_dot(a3, m.weights.l1_kernel@);
    let b2 = spec_matrix_add(b1, m.weights.l1_bias@);
    let b3 = spec_relu(b2, m.alpha);
    let c1 = spec_dot(b3, m.weights.l2_kernel@);
    let c2 = spec_matrix_add(c1, m.weights.l2_bias@);
    c2.at(0, 0)
}

/// The first value paired with `name`, scanning forward.
fn find_stat(list: &Vec<(String, u32)>, name: &String) -> (r: Option<u32>)
    ensures
        r == lookup(pairs_view(list@), name@),
{
    let ghost pv = pairs_view(list@);
    let n = list.len();
    proof {
        assert(pv.skip(0) =~= pv);
    }
    let mut i: usize = 0;
    while i < n
        invariant
            pv == pairs_view(list@),
            n == list@.len(),
            i <= n,
            lookup(pv.skip(i as int), name@) == lookup(pv, name@),
        decreases n - i,
    {
        if list[i].0 == *name {
            proof {
                assert(pv.skip(i as int)[0] == pv[i as int]);
            }
            return Some(list[i].1);
        }
        proof {
            assert(pv.skip(i as int).drop_first() =~= pv.skip(i as int + 1));
            assert(pv.skip(i as int)[0] == pv[i as int]);
        }
        i = i + 1;
    }
    proof {
        assert(pv.skip(n as int).len() == 0);
    }
    None
}

impl ModelData {
    /// The forward pass over a normalized input row.
    pub fn predict(&self, input: &Matrix) -> (r: u32)
        requires
            self.wf(),
            input@.wf(),
            input@.height == 1,
            input@.width == self.fields@.len(),
        ensures
            r == spec_predict(*self, input@),
    {
        let a1 = input.dot(&self.weights.l0_kernel);
        let a2 = a1.add(&self.weights.l0_bias);
        let a3 = a2.relu(self.alpha);

        let b1 = a3.dot(&self.weights.l1_kernel);
        let b2 = b1.add(&self.weights.l1_bias);
        let b3 = b2.relu(self.alpha);

        let c1 = b3.dot(&self.weights.l2_kernel);
        let c2 = c1.add(&self.weights.l2_bias);

        c2.get(0, 0)
    }

    /// Builds the normalized feature vector for this model from named
    /// inputs.
    ///
    /// A name absent from `input` contributes the value zero before
    /// normalization; a field whose standard deviation or mean is missing
    /// from the model's statistics fails with the matching error, checked
    /// in field-list order, deviation first. Whether this succeeds depends
    /// on the model's statistics alone, never on `input`.
    ///
    /// One law rides along in the contract: when the input value of a field
    /// equals the field's mean, the mean is finite, and the standard
    /// deviation is positive and not zero or NaN, the normalized value of
    /// that field is exactly (positive) zero.
    pub fn norm(&self, input: &Vec<(String, u32)>) -> (r: Result<Matrix, Error>)
        ensures
            r is Ok <==> self.stats_complete(),
            r matches Ok(v) ==> v@ == spec_norm_view(*self, pairs_view(input@)) && v@.wf(),
            r matches Ok(v) ==> forall|i: int|
                0 <= i < self.fields@.len() && lookup_or_zero(pairs_view(input@), self.fields@[i]@)
                    == self.mean_at(i).unwrap() && fp_is_finite(self.mean_at(i).unwrap())
                    && !fp_is_nan(self.std_at(i).unwrap()) && !fp_is_sign_neg(
                    self.std_at(i).unwrap(),
                ) && self.std_at(i).unwrap() != ZERO_BITS ==> #[trigger] v@.elems[i] == ZERO_BITS,
            r matches Err(e) ==> exists|i: int|
                #![auto]
                0 <= i < self.fields@.len() && self.stats_complete_upto(i) && ((self.std_at(i)
                    is None && (e matches Error::MissingStdData(s) && s@ == self.fields@[i]@)) || (
                self.std_at(i) is Some && self.mean_at(i) is None && (e matches
                    Error::MissingMeanData(s) && s@ == self.fields@[i]@))),
    {
        let n = self.fields.len();
        let mut out: Vec<u32> = Vec::new();
        let mut i: usize = 0;
        while i < n
            invariant
                n == self.fields@.len(),
                i <= n,
                out@.len() == i,
                self.stats_complete_upto(i as int),
                forall|j: int| 0 <= j < i ==> out@[j] == norm_elem(*self, pairs_view(input@), j),
                forall|j: int|
                    0 <= j < i && lookup_or_zero(pairs_view(input@), self.fields@[j]@) == self.mean_at(
                        j,
                    ).unwrap() && fp_is_finite(self.mean_at(j).unwrap()) && !fp_is_nan(
                        self.std_at(j).unwrap(),
                    ) && !fp_is_sign_neg(self.std_at(j).unwrap()) && self.std_at(j).unwrap()
                        != ZERO_BITS ==> #[trigger] out@[j] == ZERO_BITS,
            decreases n - i,
        {
            let field = &self.fields[i];
            let x = match find_stat(input, field) {
                Some(v) => v,
                None => ZERO_BITS,
            };
            let sd = match find_stat(&self.norm.std, field) {
                Some(v) => v,
                None => {
                    proof {
                        assert(self.std_at(i as int) is None);
                        assert(!self.stats_complete());
                    }
                    return Err(Error::MissingStdData(field.clone()));
                },
            };
            let mn = match find_stat(&self.norm.mean, field) {
                Some(v) => v,
                None => {
                    proof {
                        assert(self.std_at(i as int) is Some);
                        assert(self.mean_at(i as int) is None);
                        assert(!self.stats_complete());
                    }
                    return Err(Error::MissingMeanData(field.clone()));
                },
            };
            let centered = sub_bits(x, mn);
            let v = div_bits(centered, sd);
            out.push(v);
            i = i + 1;
        }
        let m = Matrix::from_array(out);
        proof {
            assert(m@.elems =~= spec_norm_elems(*self, pairs_view(input@)));
            assert(m@ =~= spec_norm_view(*self, pairs_view(input@)));
        }
        Ok(m)
    }

    /// Normalization followed by the forward pass.
    pub fn norm_predict(&self, input: &Vec<(String, u32)>) -> (r: Result<u32, Error>)
        requires
            self.wf(),
        ensures
            r is Ok <==> self.stats_complete(),
            r matches Ok(v) ==> v == spec_predict(*self, spec_norm_view(*self, pairs_view(input@))),
            r matches Err(e) ==> exists|i: int|
                #![auto]
                0 <= i < self.fields@.len() && self.stats_complete_upto(i) && ((self.std_at(i)
                    is None && (e matches Error::MissingStdData(s) && s@ == self.fields@[i]@)) || (
                self.std_at(i) is Some && self.mean_at(i) is None && (e matches
                    Error::MissingMeanData(s) && s@ == self.fields@[i]@))),
    {
        let x = self.norm(input)?;
        Ok(self.predict(&x))
    }
}

} // verus!
