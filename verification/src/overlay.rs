//! The correction overlay: active, time-scoped arithmetic rules
//! applied to matching samples after the transform stages.

use vstd::prelude::*;
use crate::types::{DataOperation, OperationType, TelemetryData};
use crate::stages::{clamp_i64, seq_has_name};

verus! {

impl Clone for DataOperation {
    fn clone(&self) -> (res: Self)
        ensures
            res == *self,
    {
        DataOperation {
            id: self.id,
            name: match &self.name {
                Some(n) => Some(n.clone()),
                None => None,
            },
            description: match &self.description {
                Some(n) => Some(n.clone()),
                None => None,
            },
            target_name: self.target_name.clone(),
            key_name: self.key_name.clone(),
            operation_type: self.operation_type,
            value: self.value,
            start_time_ms: self.start_time_ms,
            end_time_ms: self.end_time_ms,
            is_active: self.is_active,
            created_at_ms: self.created_at_ms,
            updated_at_ms: self.updated_at_ms,
        }
    }
}

/// Whether a rule reaches a sample: the rule is active, names the
/// sample's (target, metric), and its validity interval contains the
/// sample's timestamp (an absent bound is unbounded).
pub open spec fn op_applies(op: DataOperation, d: TelemetryData) -> bool {
    &&& op.is_active
    &&& op.target_name@ == d.target_name@
    &&& op.key_name@ == d.key_name@
    &&& match op.start_time_ms {
        None => true,
        Some(s) => d.timestamp_ms >= s,
    }
    &&& match op.end_time_ms {
        None => true,
        Some(e) => d.timestamp_ms <= e,
    }
}

/// Integer division truncating toward zero, as the `/` of the
/// underlying machine integers computes it.
pub open spec fn trunc_div(x: int, d: int) -> int {
    if x == 0 {
        0
    } else if x > 0 && d > 0 {
        x / d
    } else if x < 0 && d < 0 {
        (x * -1) / (d * -1)
    } else if x < 0 {
        ((x * -1) / d) * -1
    } else {
        (x / (d * -1)) * -1
    }
}

/// The arithmetic of one rule on one value.  Addition, subtraction and
/// multiplication saturate at the `i64` bounds; division truncates
/// toward zero, and a zero divisor leaves the value unchanged rather
/// than failing the query.
pub open spec fn apply_op_value(t: OperationType, v: i64, a: i64) -> i64 {
    match t {
        OperationType::Add => clamp_i64(v + a),
        OperationType::Subtract => clamp_i64(v - a),
        OperationType::Multiply => clamp_i64(v * a),
        OperationType::Divide => if a == 0 {
            v
        } else {
            clamp_i64(trunc_div(v as int, a as int))
        },
    }
}

/// One rule applied to one sample.
pub open spec fn apply_one_op(op: DataOperation, d: TelemetryData) -> TelemetryData {
    if op_applies(op, d) {
        TelemetryData { value: apply_op_value(op.operation_type, d.value, op.value), ..d }
    } else {
        d
    }
}

/// All rules applied to one sample, left to right in retrieval order.
pub open spec fn apply_ops_sample(ops: Seq<DataOperation>, d: TelemetryData) -> TelemetryData
    decreases ops.len(),
{
    if ops.len() == 0 {
        d
    } else {
        apply_one_op(ops.last(), apply_ops_sample(ops.drop_last(), d))
    }
}

pub fn sat_add_i64(a: i64, b: i64) -> (r: i64)
    ensures
        r == clamp_i64(a + b),
{
    match a.checked_add(b) {
        Some(x) => x,
        None => {
            if b > 0 {
                i64::MAX
            } else {
                i64::MIN
            }
        }
    }
}

pub fn sat_mul_i64(a: i64, b: i64) -> (r: i64)
    ensures
        r == clamp_i64(a * b),
{
    match a.checked_mul(b) {
        Some(x) => x,
        None => {
            proof {
                assert(a != 0 && b != 0);
            }
            if (a > 0) == (b > 0) {
                proof {
                    assert(a * b > 0) by (nonlinear_arith)
                        requires
                            a != 0,
                            b != 0,
                            (a > 0) == (b > 0),
                    {
                    }
                }
                i64::MAX
            } else {
                proof {
                    assert(a * b < 0) by (nonlinear_arith)
                        requires
                            a != 0,
                            b != 0,
                            (a > 0) != (b > 0),
                    {
                    }
                }
                i64::MIN
            }
        }
    }
}

/// Division of the fixed-point values; a zero divisor is a no-op and
/// the one overflowing case saturates.
pub fn guarded_div_i64(v: i64, a: i64) -> (r: i64)
    ensures
        r == (if a == 0 {
            v
        } else {
            clamp_i64(trunc_div(v as int, a as int))
        }),
{
    if a == 0 {
        v
    } else {
        match v.checked_div(a) {
            Some(x) => x,
            None => {
                proof {
                    let out = trunc_div(v as int, a as int);
                    if v < 0 && a > 0 {
                        vstd::arithmetic::div_mod::lemma_div_nonincreasing(
                            (v as int) * -1,
                            a as int,
                        );
                        vstd::arithmetic::div_mod::lemma_div_pos_is_pos(
                            (v as int) * -1,
                            a as int,
                        );
                        assert(out >= i64::MIN);
                    }
                    if v > 0 && a < 0 {
                        vstd::arithmetic::div_mod::lemma_div_nonincreasing(
                            v as int,
                            (a as int) * -1,
                        );
                        vstd::arithmetic::div_mod::lemma_div_pos_is_pos(
                            v as int,
                            (a as int) * -1,
                        );
                        assert(out >= i64::MIN);
                    }
                    if v < 0 && a < 0 {
                        vstd::arithmetic::div_mod::lemma_div_pos_is_pos(
                            (v as int) * -1,
                            (a as int) * -1,
                        );
                        assert(out >= 0 > i64::MIN);
                    }
                    assert(out > i64::MAX);
                }
                i64::MAX
            }
        }
    }
}

pub fn apply_one_op_exec(op: &DataOperation, d: &TelemetryData) -> (r: TelemetryData)
    ensures
        r == apply_one_op(*op, *d),
{
    let mut applies = op.is_active && op.target_name == d.target_name && op.key_name
        == d.key_name;
    if applies {
        match &op.start_time_ms {
            Some(s) => {
                if d.timestamp_ms < *s {
                    applies = false;
                }
            }
            None => {}
        }
    }
    if applies {
        match &op.end_time_ms {
            Some(e) => {
                if d.timestamp_ms > *e {
                    applies = false;
                }
            }
            None => {}
        }
    }
    if !applies {
        return d.clone();
    }
    let nv = match op.operation_type {
        OperationType::Add => sat_add_i64(d.value, op.value),
        OperationType::Subtract => crate::stages::sat_sub_i64(d.value, op.value),
        OperationType::Multiply => sat_mul_i64(d.value, op.value),
        OperationType::Divide => guarded_div_i64(d.value, op.value),
    };
    TelemetryData {
        timestamp_ms: d.timestamp_ms,
        asset_name: d.asset_name.clone(),
        device_name: d.device_name.clone(),
        target_name: d.target_name.clone(),
        key_name: d.key_name.clone(),
        value: nv,
    }
}

pub fn apply_ops_to_sample(ops: &Vec<DataOperation>, d: &TelemetryData) -> (r: TelemetryData)
    ensures
        r == apply_ops_sample(ops@, *d),
{
    let mut cur = d.clone();
    let mut j: usize = 0;
    proof {
        assert(ops@.take(0int) =~= Seq::<DataOperation>::empty());
    }
    while j < ops.len()
        invariant
            0 <= j <= ops@.len(),
            cur == apply_ops_sample(ops@.take(j as int), *d),
        decreases ops@.len() - j,
    {
        proof {
            assert(ops@.take(j + 1int).drop_last() =~= ops@.take(j as int));
            assert(ops@.take(j + 1int).last() == ops@[j as int]);
        }
        cur = apply_one_op_exec(&ops[j], &cur);
        j += 1;
    }
    proof {
        assert(ops@.take(ops@.len() as int) =~= ops@);
    }
    cur
}

/// Apply every rule to every sample it reaches, composing matching
/// rules left to right in the order they were retrieved.
pub fn apply_operations_to_data(data: &mut Vec<TelemetryData>, operations: &Vec<DataOperation>)
    ensures
        final(data)@ == old(data)@.map_values(
            |d: TelemetryData| apply_ops_sample(operations@, d),
        ),
{
    let ghost f = |d: TelemetryData| apply_ops_sample(operations@, d);
    let mut i: usize = 0;
    while i < data.len()
        invariant
            0 <= i <= data@.len(),
            data@.len() == old(data)@.len(),
            f == (|d: TelemetryData| apply_ops_sample(operations@, d)),
            forall|j: int| 0 <= j < i ==> #[trigger] data@[j] == f(old(data)@[j]),
            forall|j: int| i <= j < data@.len() ==> #[trigger] data@[j] == old(data)@[j],
        decreases data@.len() - i,
    {
        let nd = apply_ops_to_sample(operations, &data[i]);
        data[i] = nd;
        i += 1;
    }
    proof {
        assert(data@ =~= old(data)@.map_values(f));
    }
}

/// Which of the retrieved rules are relevant to a query: active, and
/// naming one of the queried targets or metrics; with no restriction
/// on either, every active rule is relevant.
pub open spec fn op_relevant(op: DataOperation, targets: Seq<String>, keys: Seq<String>) -> bool {
    &&& op.is_active
    &&& {
        ||| (targets.len() == 0 && keys.len() == 0)
        ||| seq_has_name(targets, op.target_name@)
        ||| seq_has_name(keys, op.key_name@)
    }
}

/// Keep, in retrieval order, the rules relevant to the queried targets
/// and metrics.
pub fn get_relevant_operations(
    operations: &Vec<DataOperation>,
    target_names: &Vec<String>,
    key_names: &Vec<String>,
) -> (out: Vec<DataOperation>)
    ensures
        out@ == operations@.filter(
            |op: DataOperation| op_relevant(op, target_names@, key_names@),
        ),
{
    let ghost pred = |op: DataOperation| op_relevant(op, target_names@, key_names@);
    let mut out: Vec<DataOperation> = Vec::new();
    let mut i: usize = 0;
    proof {
        assert(operations@.subrange(0, 0int) =~= Seq::<DataOperation>::empty());
        assert(Seq::<DataOperation>::empty().filter(pred) =~= Seq::<DataOperation>::empty());
    }
    while i < operations.len()
        invariant
            0 <= i <= operations@.len(),
            pred == (|op: DataOperation| op_relevant(op, target_names@, key_names@)),
            out@ == operations@.subrange(0, i as int).filter(pred),
        decreases operations@.len() - i,
    {
        let op = &operations[i];
        let keep = op.is_active && ((target_names.len() == 0 && key_names.len() == 0)
            || crate::stages::vec_has_name(target_names, &op.target_name)
            || crate::stages::vec_has_name(key_names, &op.key_name));
        proof {
            assert(operations@.subrange(0, i + 1int) =~= operations@.subrange(0, i as int).push(
                operations@[i as int],
            ));
            operations@.subrange(0, i as int).lemma_filter_push(operations@[i as int], pred);
        }
        if keep {
            out.push(operations[i].clone());
        }
        i += 1;
    }
    proof {
        assert(operations@.subrange(0, operations@.len() as int) =~= operations@);
    }
    out
}

} // verus!
