//! Engine-wide laws, stated and proved over the same specifications the
//! public functions promise.

use vstd::prelude::*;

verus! {

use crate::value::Value;
use crate::sem::sem_valid;
use crate::sem::sem_errors;
use crate::compile::CompiledValidator;

/// A schema that fails meta-validation never compiles, and `matches` is
/// false on it whatever the instance is.
pub proof fn lemma_invalid_schema_matches_nothing(schema: Value, instance: Value)
    requires
        !crate::compile::schema_ok(schema),
    ensures
        crate::compile::compile_fault(schema) is Some,
        !crate::matches_spec(schema, instance),
{
}

/// When a schema compiles, the boolean verdict and the diagnostic report
/// agree: the instance matches exactly when the message list is empty.  In
/// particular, an instance that satisfies every keyword matches and gets an
/// empty report.
pub proof fn lemma_verdict_agrees_with_report(schema: Value, instance: Value)
    requires
        crate::compile::compile_fault(schema) is None,
    ensures
        crate::matches_spec(schema, instance) == (crate::validation_errors_spec(
            schema,
            instance,
        ).len() == 0),
{
    let errs = sem_errors(schema, schema, instance, crate::EVAL_FUEL as nat);
    assert(crate::validation_errors_spec(schema, instance) == errs.map_values(
        |e: crate::sem::VErr| e.msg,
    ));
}

/// A violated leaf keyword reports exactly one violation, and that violation
/// names the keyword; so an instance violating exactly one such keyword gets
/// a single-entry report naming it.
pub proof fn lemma_leaf_keyword_single_error(sdoc: Value, v: Value)
    ensures
        crate::sem::kw_type_errs(sdoc, v).len() <= 1,
        crate::sem::kw_type_errs(sdoc, v).len() == 1 ==> crate::sem::kw_type_errs(sdoc, v)[0].keyword
            == "type"@,
        crate::sem::kw_enum_errs(sdoc, v).len() <= 1,
        crate::sem::kw_enum_errs(sdoc, v).len() == 1 ==> crate::sem::kw_enum_errs(sdoc, v)[0].keyword
            == "enum"@,
        crate::sem::kw_const_errs(sdoc, v).len() <= 1,
        crate::sem::kw_const_errs(sdoc, v).len() == 1 ==> crate::sem::kw_const_errs(
            sdoc,
            v,
        )[0].keyword == "const"@,
        crate::sem::kw_minimum_errs(sdoc, v).len() <= 1,
        crate::sem::kw_minimum_errs(sdoc, v).len() == 1 ==> crate::sem::kw_minimum_errs(
            sdoc,
            v,
        )[0].keyword == "minimum"@,
        crate::sem::kw_maximum_errs(sdoc, v).len() <= 1,
        crate::sem::kw_maximum_errs(sdoc, v).len() == 1 ==> crate::sem::kw_maximum_errs(
            sdoc,
            v,
        )[0].keyword == "maximum"@,
        crate::sem::kw_excl_min_errs(sdoc, v).len() <= 1,
        crate::sem::kw_excl_min_errs(sdoc, v).len() == 1 ==> crate::sem::kw_excl_min_errs(
            sdoc,
            v,
        )[0].keyword == "exclusiveMinimum"@,
        crate::sem::kw_excl_max_errs(sdoc, v).len() <= 1,
        crate::sem::kw_excl_max_errs(sdoc, v).len() == 1 ==> crate::sem::kw_excl_max_errs(
            sdoc,
            v,
        )[0].keyword == "exclusiveMaximum"@,
        crate::sem::kw_multiple_of_errs(sdoc, v).len() <= 1,
        crate::sem::kw_multiple_of_errs(sdoc, v).len() == 1 ==> crate::sem::kw_multiple_of_errs(
            sdoc,
            v,
        )[0].keyword == "multipleOf"@,
        crate::sem::kw_min_length_errs(sdoc, v).len() <= 1,
        crate::sem::kw_min_length_errs(sdoc, v).len() == 1 ==> crate::sem::kw_min_length_errs(
            sdoc,
            v,
        )[0].keyword == "minLength"@,
        crate::sem::kw_max_length_errs(sdoc, v).len() <= 1,
        crate::sem::kw_max_length_errs(sdoc, v).len() == 1 ==> crate::sem::kw_max_length_errs(
            sdoc,
            v,
        )[0].keyword == "maxLength"@,
        crate::sem::kw_pattern_errs(sdoc, v).len() <= 1,
        crate::sem::kw_pattern_errs(sdoc, v).len() == 1 ==> crate::sem::kw_pattern_errs(
            sdoc,
            v,
        )[0].keyword == "pattern"@,
        crate::sem::kw_unique_items_errs(sdoc, v).len() <= 1,
        crate::sem::kw_unique_items_errs(sdoc, v).len() == 1 ==> crate::sem::kw_unique_items_errs(
            sdoc,
            v,
        )[0].keyword == "uniqueItems"@,
{
}

/// Compiling the same schema document twice yields validators that produce
/// identical verdicts and identical reports on every instance: both are
/// pinned to the same function of the document alone.
pub proof fn lemma_compile_idempotent<'a, 'b>(
    cv1: CompiledValidator<'a>,
    cv2: CompiledValidator<'b>,
)
    requires
        cv1.wf(),
        cv2.wf(),
        *cv1.doc == *cv2.doc,
    ensures
        forall|instance: Value, fuel: nat|
            sem_valid(*cv1.doc, *cv1.doc, instance, fuel) == sem_valid(
                *cv2.doc,
                *cv2.doc,
                instance,
                fuel,
            ),
        forall|instance: Value, fuel: nat|
            sem_errors(*cv1.doc, *cv1.doc, instance, fuel) == sem_errors(
                *cv2.doc,
                *cv2.doc,
                instance,
                fuel,
            ),
{
}

} // verus!
