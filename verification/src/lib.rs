//! A transaction fee-rate estimator backed by a small pretrained
//! feed-forward regression network, selecting between two fixed-shape
//! models by confirmation-target horizon.
//!
//! Every scalar of the numeric pipeline is carried as the bit pattern of an
//! IEEE-754 binary32 value; see the `fp` module.

use vstd::prelude::*;

pub mod calendar;
pub mod codec;
pub mod compile;
pub mod error;
pub mod fp;
pub mod matrix;
pub mod model_data;
pub mod shapes;

pub use error::Error;

use crate::calendar::{day_of_week_utc, hour_utc, now_ts, spec_day_of_week, spec_hour};
use crate::fp::{bits_of_i64, bits_of_u64, fp_of_i64, fp_of_u64};
use crate::model_data::{pairs_view, spec_norm_view, spec_predict, ModelData};

verus! {

/// The name of feature `i`, in the fixed feature order: the confirmation
/// target, two calendar features, the time since the last block, and the
/// sixteen fee-rate buckets.
pub open spec fn feature_name(i: int) -> Seq<char> {
    if i == 0 {
        "confirms_in"@
    } else if i == 1 {
        "day_of_week"@
    } else if i == 2 {
        "hour"@
    } else if i == 3 {
        "delta_last"@
    } else if i == 4 {
        "b0"@
    } else if i == 5 {
        "b1"@
    } else if i == 6 {
        "b2"@
    } else if i == 7 {
        "b3"@
    } else if i == 8 {
        "b4"@
    } else if i == 9 {
        "b5"@
    } else if i == 10 {
        "b6"@
    } else if i == 11 {
        "b7"@
    } else if i == 12 {
        "b8"@
    } else if i == 13 {
        "b9"@
    } else if i == 14 {
        "b10"@
    } else if i == 15 {
        "b11"@
    } else if i == 16 {
        "b12"@
    } else if i == 17 {
        "b13"@
    } else if i == 18 {
        "b14"@
    } else {
        "b15"@
    }
}

/// The value of feature `i`, as a binary32 bit pattern.
pub open spec fn feature_value(
    block_target: u16,
    ts: u32,
    buckets: Seq<u64>,
    last_block_ts: u32,
    i: int,
) -> u32 {
    if i == 0 {
        fp_of_u64(block_target as u64)
    } else if i == 1 {
        fp_of_u64(spec_day_of_week(ts) as u64)
    } else if i == 2 {
        fp_of_u64(spec_hour(ts) as u64)
    } else if i == 3 {
        fp_of_i64((ts as int - last_block_ts as int) as i64)
    } else {
        fp_of_u64(buckets[i - 4])
    }
}

/// The full named feature vector handed to normalization.
pub open spec fn spec_features(
    block_target: u16,
    ts: u32,
    buckets: Seq<u64>,
    last_block_ts: u32,
) -> Seq<(Seq<char>, u32)> {
    Seq::new(
        20,
        |i: int|
            (feature_name(i), feature_value(block_target, ts, buckets, last_block_ts, i)),
    )
}

/// The fee estimation facade: one model for the shortest confirmation
/// targets, one for the rest.
pub struct FeeModel {
    low: ModelData,
    high: ModelData,
}

impl FeeModel {
    /// The model used at or below the routing threshold.
    pub closed spec fn low_model(self) -> ModelData {
        self.low
    }

    /// The model used above the routing threshold.
    pub closed spec fn high_model(self) -> ModelData {
        self.high
    }

    /// Both models are well formed and share identical input, hidden and
    /// output widths.
    pub open spec fn wf(self) -> bool {
        &&& self.low_model().wf()
        &&& self.high_model().wf()
        &&& self.low_model().weights.input_width() == self.high_model().weights.input_width()
        &&& self.low_model().weights.hidden0() == self.high_model().weights.hidden0()
    }

    /// The model that serves a given confirmation target.
    pub open spec fn chosen(self, block_target: u16) -> ModelData {
        if block_target <= 2 {
            self.low_model()
        } else {
            self.high_model()
        }
    }

    /// Pairs the two compiled models into a facade.
    pub fn new(low: ModelData, high: ModelData) -> (r: FeeModel)
        requires
            low.wf(),
            high.wf(),
            low.weights.input_width() == high.weights.input_width(),
            low.weights.hidden0() == high.weights.hidden0(),
        ensures
            r.wf(),
            r.low_model() == low,
            r.high_model() == high,
    {
        FeeModel { low, high }
    }

    /// The estimate for a confirmation target from pre-bucketed fee rates.
    ///
    /// A target at or below two routes to the low model, any other target
    /// to the high model. The feature vector pairs the target, the
    /// timestamp's day of week and hour, the time elapsed since the last
    /// block, and the first sixteen bucket counts; a missing timestamp is
    /// replaced by the current time. Success depends on the chosen model's
    /// statistics alone.
    pub fn estimate_with_buckets(
        &self,
        block_target: u16,
        timestamp: Option<u32>,
        fee_buckets: &[u64],
        last_block_ts: u32,
    ) -> (r: Result<u32, Error>)
        requires
            self.wf(),
            fee_buckets@.len() >= 16,
        ensures
            r is Ok <==> self.chosen(block_target).stats_complete(),
            timestamp matches Some(t) ==> (r matches Ok(v) ==> v == spec_estimate(
                *self,
                block_target,
                t,
                fee_buckets@,
                last_block_ts,
            )),
            timestamp is None ==> (r matches Ok(v) ==> exists|t: u32|
                v == #[trigger] spec_estimate(*self, block_target, t, fee_buckets@, last_block_ts)),
            r matches Err(e) ==> exists|i: int|
                #![trigger self.chosen(block_target).std_at(i)]
                0 <= i < self.chosen(block_target).fields@.len() && self.chosen(
                    block_target,
                ).stats_complete_upto(i) && ((self.chosen(block_target).std_at(i) is None && (
                e matches Error::MissingStdData(s) && s@ == self.chosen(
                    block_target,
                ).fields@[i]@)) || (self.chosen(block_target).std_at(i) is Some && self.chosen(
                    block_target,
                ).mean_at(i) is None && (e matches Error::MissingMeanData(s) && s@ == self.chosen(
                    block_target,
                ).fields@[i]@))),
    {
        let ts = match timestamp {
            Some(t) => t,
            None => now_ts(),
        };
        let mut input: Vec<(String, u32)> = Vec::new();
        input.push(("confirms_in".to_owned(), bits_of_u64(block_target as u64)));
        input.push(("day_of_week".to_owned(), bits_of_u64(day_of_week_utc(ts) as u64)));
        input.push(("hour".to_owned(), bits_of_u64(hour_utc(ts) as u64)));
        let delta: i64 = ts as i64 - last_block_ts as i64;
        input.push(("delta_last".to_owned(), bits_of_i64(delta)));
        input.push(("b0".to_owned(), bits_of_u64(fee_buckets[0])));
        input.push(("b1".to_owned(), bits_of_u64(fee_buckets[1])));
        input.push(("b2".to_owned(), bits_of_u64(fee_buckets[2])));
        input.push(("b3".to_owned(), bits_of_u64(fee_buckets[3])));
        input.push(("b4".to_owned(), bits_of_u64(fee_buckets[4])));
        input.push(("b5".to_owned(), bits_of_u64(fee_buckets[5])));
        input.push(("b6".to_owned(), bits_of_u64(fee_buckets[6])));
        input.push(("b7".to_owned(), bits_of_u64(fee_buckets[7])));
        input.push(("b8".to_owned(), bits_of_u64(fee_buckets[8])));
        input.push(("b9".to_owned(), bits_of_u64(fee_buckets[9])));
        input.push(("b10".to_owned(), bits_of_u64(fee_buckets[10])));
        input.push(("b11".to_owned(), bits_of_u64(fee_buckets[11])));
        input.push(("b12".to_owned(), bits_of_u64(fee_buckets[12])));
        input.push(("b13".to_owned(), bits_of_u64(fee_buckets[13])));
        input.push(("b14".to_owned(), bits_of_u64(fee_buckets[14])));
        input.push(("b15".to_owned(), bits_of_u64(fee_buckets[15])));
        proof {
            assert(pairs_view(input@) =~= spec_features(
                block_target,
                ts,
                fee_buckets@,
                last_block_ts,
            ));
        }
        if block_target <= 2 {
            let r = self.low.norm_predict(&input);
            proof {
                assert(self.chosen(block_target) == self.low);
                assert(r matches Ok(v) ==> v == spec_estimate(
                    *self,
                    block_target,
                    ts,
                    fee_buckets@,
                    last_block_ts,
                ));
                if r is Err {
                    let e = r->Err_0;
                    let i0 = choose|i: int|
                        #![auto]
                        0 <= i < self.low.fields@.len() && self.low.stats_complete_upto(i) && ((
                        self.low.std_at(i) is None && (e matches Error::MissingStdData(s) && s@
                            == self.low.fields@[i]@)) || (self.low.std_at(i) is Some
                            && self.low.mean_at(i) is None && (e matches Error::MissingMeanData(s)
                            && s@ == self.low.fields@[i]@)));
                    assert(self.chosen(block_target).std_at(i0) == self.low.std_at(i0));
                }
            }
            r
        } else {
            let r = self.high.norm_predict(&input);
            proof {
                assert(self.chosen(block_target) == self.high);
                assert(r matches Ok(v) ==> v == spec_estimate(
                    *self,
                    block_target,
                    ts,
                    fee_buckets@,
                    last_block_ts,
                ));
                if r is Err {
                    let e = r->Err_0;
                    let i0 = choose|i: int|
                        #![auto]
                        0 <= i < self.high.fields@.len() && self.high.stats_complete_upto(i) && ((
                        self.high.std_at(i) is None && (e matches Error::MissingStdData(s) && s@
                            == self.high.fields@[i]@)) || (self.high.std_at(i) is Some
                            && self.high.mean_at(i) is None && (e matches Error::MissingMeanData(
                            s,
                        ) && s@ == self.high.fields@[i]@)));
                    assert(self.chosen(block_target).std_at(i0) == self.high.std_at(i0));
                }
            }
            r
        }
    }
}

/// The estimate that a facade returns for a target, a timestamp, bucketed
/// fee rates and the last block's timestamp: the chosen model's forward
/// pass over the normalized feature vector.
pub open spec fn spec_estimate(
    m: FeeModel,
    block_target: u16,
    ts: u32,
    buckets: Seq<u64>,
    last_block_ts: u32,
) -> u32 {
    let chosen = m.chosen(block_target);
    spec_predict(
        chosen,
        spec_norm_view(chosen, spec_features(block_target, ts, buckets, last_block_ts)),
    )
}

} // verus!
