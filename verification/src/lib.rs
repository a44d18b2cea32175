//! A JSON Schema validation engine.
//!
//! A schema document and an instance document are both given as abstract JSON
//! values; the engine meta-validates the schema, compiles it, and evaluates
//! the instance against it, reporting either a boolean verdict or an ordered
//! list of structured violations with exact paths and messages.

use vstd::prelude::*;

pub mod num;
pub mod value;
pub mod render;
pub mod ptr;
pub mod rx;
pub mod sem;
pub mod eval;
pub mod compile;
pub mod laws;

verus! {

use crate::value::Value;

/// The depth budget for one evaluation: nested subschema evaluations beyond
/// it fail closed with a depth error rather than overflowing the stack.
pub const EVAL_FUEL: u64 = 128;

/// What `matches` decides: the schema compiles, and the instance produces no
/// violations.
pub open spec fn matches_spec(schema: Value, instance: Value) -> bool {
    &&& compile::compile_fault(schema) is None
    &&& sem::sem_valid(schema, schema, instance, EVAL_FUEL as nat)
}

/// True exactly when the schema compiles and the instance satisfies it; a
/// schema that fails to compile matches nothing.
pub fn matches(schema: &Value, instance: &Value) -> (r: bool)
    ensures
        r == matches_spec(*schema, *instance),
{
    match compile::compile(schema) {
        Ok(cv) => cv.is_valid(instance),
        Err(_) => false,
    }
}

/// True exactly when the schema passes meta-validation: a recognized
/// dialect and no structurally invalid keyword.
pub fn is_valid_schema(schema: &Value) -> (r: bool)
    ensures
        r == compile::schema_ok(*schema),
{
    compile::check_schema(schema)
}

/// The message strings `validation_errors` returns: the compile error alone
/// when the schema is refused, else every violation's message in evaluation
/// order.
pub open spec fn validation_errors_spec(schema: Value, instance: Value) -> Seq<Seq<char>> {
    match compile::compile_fault(schema) {
        Some(f) => seq![compile::compile_fault_msg(f)],
        None => sem::sem_errors(schema, schema, instance, EVAL_FUEL as nat).map_values(
            |e: sem::VErr| e.msg,
        ),
    }
}

/// The ordered violation messages; empty means valid, and a schema that
/// fails to compile yields exactly its compile error's description.
pub fn validation_errors(schema: &Value, instance: &Value) -> (r: Vec<String>)
    ensures
        r@.map_values(|s: String| s@) == validation_errors_spec(*schema, *instance),
{
    match compile::compile(schema) {
        Ok(cv) => {
            let errs = cv.errors(instance);
            let ghost orig = errs@;
            let mut rest = errs;
            let mut out: Vec<String> = Vec::new();
            let ghost mut k: int = 0;
            proof {
                assert(orig.skip(0) =~= orig);
                assert(out@.map_values(|s: String| s@) =~= crate::eval::errs_model(
                    orig,
                ).map_values(|e: sem::VErr| e.msg).take(0));
            }
            while rest.len() > 0
                invariant
                    0 <= k <= orig.len(),
                    rest@ == orig.skip(k),
                    out@.map_values(|s: String| s@) == crate::eval::errs_model(orig).map_values(
                        |e: sem::VErr| e.msg,
                    ).take(k),
                decreases rest@.len(),
            {
                proof {
                    assert(orig.skip(k)[0] == orig[k]);
                    assert(orig.skip(k).remove(0) =~= orig.skip(k + 1));
                }
                let e = rest.remove(0);
                let ghost prev = out@;
                out.push(e.message);
                proof {
                    assert(out@.map_values(|s: String| s@) =~= prev.map_values(
                        |s: String| s@,
                    ).push(e.message@));
                    assert(crate::eval::errs_model(orig).map_values(|e: sem::VErr| e.msg).take(
                        k + 1,
                    ) =~= crate::eval::errs_model(orig).map_values(|e: sem::VErr| e.msg).take(
                        k,
                    ).push(crate::eval::err_model(orig[k]).msg));
                }
                proof {
                    k = k + 1;
                }
            }
            proof {
                assert(orig.skip(k).len() == 0);
                assert(k == orig.len());
                assert(crate::eval::errs_model(orig).map_values(|e: sem::VErr| e.msg).take(k)
                    =~= crate::eval::errs_model(orig).map_values(|e: sem::VErr| e.msg));
            }
            out
        },
        Err(e) => {
            let mut out: Vec<String> = Vec::new();
            out.push(e.message);
            proof {
                assert(out@.map_values(|s: String| s@) =~= validation_errors_spec(
                    *schema,
                    *instance,
                ));
            }
            out
        },
    }
}

} // verus!
