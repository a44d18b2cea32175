//! The declarative semantics of schema validation: for every keyword, the
//! violations a schema document assigns to an instance value, in a fixed
//! evaluation order, with exact paths and messages.  The evaluator is
//! verified against these definitions.

use vstd::prelude::*;

verus! {

use crate::num::Num;
use crate::num::num_lt;
use crate::num::num_le;
use crate::num::num_is_int;
use crate::num::num_int_val;
use crate::num::num_multiple_of;
use crate::value::Value;
use crate::value::lookup_seq;
use crate::value::value_equiv;
use crate::render::render;
use crate::render::num_render;
use crate::render::escape_str;
use crate::ptr::ptr_resolve;
use crate::rx::pattern_lang;
use crate::rx::pattern_valid;

/// One segment of an instance or schema path.
pub enum SegModel {
    Key(Seq<char>),
    Index(int),
}

/// A structured violation: the keyword that failed, where in the instance and
/// in the schema it failed, a rendered message, and the offending value.
pub struct VErr {
    pub keyword: Seq<char>,
    pub ipath: Seq<SegModel>,
    pub spath: Seq<SegModel>,
    pub msg: Seq<char>,
    pub value: Value,
}

/// A quoted, escaped string as it appears in messages.
pub open spec fn quoted(s: Seq<char>) -> Seq<char> {
    seq!['"'] + escape_str(s) + seq!['"']
}

pub open spec fn msg_type(v: Value, t: Value) -> Seq<char> {
    render(v) + " is not of type "@ + render(t)
}

pub open spec fn msg_enum(v: Value) -> Seq<char> {
    render(v) + " is not one of the permitted values"@
}

pub open spec fn msg_const(v: Value) -> Seq<char> {
    render(v) + " does not equal the required constant"@
}

pub open spec fn msg_minimum(v: Value, m: Num) -> Seq<char> {
    render(v) + " is less than the minimum of "@ + num_render(m)
}

pub open spec fn msg_maximum(v: Value, m: Num) -> Seq<char> {
    render(v) + " is greater than the maximum of "@ + num_render(m)
}

pub open spec fn msg_excl_min(v: Value, m: Num) -> Seq<char> {
    render(v) + " is not greater than the exclusive minimum of "@ + num_render(m)
}

pub open spec fn msg_excl_max(v: Value, m: Num) -> Seq<char> {
    render(v) + " is not less than the exclusive maximum of "@ + num_render(m)
}

pub open spec fn msg_multiple_of(v: Value, m: Num) -> Seq<char> {
    render(v) + " is not a multiple of "@ + num_render(m)
}

pub open spec fn msg_min_length(v: Value, n: Num) -> Seq<char> {
    render(v) + " is shorter than "@ + num_render(n) + " characters"@
}

pub open spec fn msg_max_length(v: Value, n: Num) -> Seq<char> {
    render(v) + " is longer than "@ + num_render(n) + " characters"@
}

pub open spec fn msg_pattern(v: Value, p: Seq<char>) -> Seq<char> {
    render(v) + " does not match pattern "@ + quoted(p)
}

pub open spec fn msg_bad_pattern(p: Seq<char>) -> Seq<char> {
    quoted(p) + " is not a valid regular expression"@
}

pub open spec fn msg_required(k: Seq<char>) -> Seq<char> {
    quoted(k) + " is a required property"@
}

pub open spec fn msg_dep_required(k: Seq<char>, trig: Seq<char>) -> Seq<char> {
    quoted(k) + " is a required property when "@ + quoted(trig) + " is present"@
}

pub open spec fn msg_unique(v: Value) -> Seq<char> {
    render(v) + " has non-unique elements"@
}

pub open spec fn msg_contains(v: Value) -> Seq<char> {
    render(v) + " does not contain an item matching the given schema"@
}

pub open spec fn msg_false_schema(v: Value) -> Seq<char> {
    "False schema does not allow "@ + render(v)
}

pub open spec fn msg_any_of(v: Value) -> Seq<char> {
    render(v) + " is not valid under any of the given schemas"@
}

pub open spec fn msg_one_of(v: Value) -> Seq<char> {
    render(v) + " is not valid under exactly one of the given schemas"@
}

pub open spec fn msg_not(v: Value) -> Seq<char> {
    render(v) + " must not be valid under the given schema"@
}

pub open spec fn msg_bad_ref(r: Seq<char>) -> Seq<char> {
    "the reference "@ + quoted(r) + " cannot be resolved"@
}

pub open spec fn msg_depth() -> Seq<char> {
    "the validation depth limit was exceeded"@
}

/// A single violation of the keyword `kw`, reported at the keyword itself.
pub open spec fn kw_err(kw: Seq<char>, msg: Seq<char>, v: Value) -> Seq<VErr> {
    seq![
        VErr {
            keyword: kw,
            ipath: Seq::empty(),
            spath: seq![SegModel::Key(kw)],
            msg: msg,
            value: v,
        },
    ]
}

/// Prefixes the paths of an error with where its subschema stood.
pub open spec fn with_prefix(ip: Seq<SegModel>, sp: Seq<SegModel>, e: VErr) -> VErr {
    VErr { keyword: e.keyword, ipath: ip + e.ipath, spath: sp + e.spath, msg: e.msg, value: e.value }
}

pub open spec fn prefixed(es: Seq<VErr>, ip: Seq<SegModel>, sp: Seq<SegModel>) -> Seq<VErr> {
    es.map_values(|e: VErr| with_prefix(ip, sp, e))
}

/// The value of the keyword `name` in a schema object, if present.
pub open spec fn kw(sdoc: Value, name: Seq<char>) -> Option<Value> {
    match sdoc {
        Value::Object(ms) => lookup_seq(ms@, name),
        _ => None,
    }
}

/// The value of the keyword `name` when it is a number.
pub open spec fn kw_num(sdoc: Value, name: Seq<char>) -> Option<Num> {
    match kw(sdoc, name) {
        Some(Value::Number(n)) => Some(n),
        _ => None,
    }
}

/// Whether `v` is of the primitive type `name` ("integer" admits any number
/// denoting a whole value).
pub open spec fn type_name_ok(name: Seq<char>, v: Value) -> bool {
    if name == "null"@ {
        v is Null
    } else if name == "boolean"@ {
        v is Bool
    } else if name == "object"@ {
        v is Object
    } else if name == "array"@ {
        v is Array
    } else if name == "string"@ {
        v is Str
    } else if name == "number"@ {
        v is Number
    } else if name == "integer"@ {
        v matches Value::Number(n) && num_is_int(n)
    } else {
        false
    }
}

pub open spec fn any_type_ok(names: Seq<Value>, v: Value) -> bool
    decreases names.len(),
{
    names.len() > 0 && {
        ||| (names[0] matches Value::Str(s) && type_name_ok(s@, v))
        ||| any_type_ok(names.drop_first(), v)
    }
}

pub open spec fn kw_type_errs(sdoc: Value, v: Value) -> Seq<VErr> {
    match kw(sdoc, "type"@) {
        Some(t) => {
            let ok = match t {
                Value::Str(s) => type_name_ok(s@, v),
                Value::Array(names) => any_type_ok(names@, v),
                _ => true,
            };
            if ok {
                Seq::empty()
            } else {
                kw_err("type"@, msg_type(v, t), v)
            }
        },
        None => Seq::empty(),
    }
}

pub open spec fn any_equiv(v: Value, cands: Seq<Value>) -> bool
    decreases cands.len(),
{
    cands.len() > 0 && (value_equiv(v, cands[0]) || any_equiv(v, cands.drop_first()))
}

pub open spec fn kw_enum_errs(sdoc: Value, v: Value) -> Seq<VErr> {
    match kw(sdoc, "enum"@) {
        Some(Value::Array(cands)) => if any_equiv(v, cands@) {
            Seq::empty()
        } else {
            kw_err("enum"@, msg_enum(v), v)
        },
        _ => Seq::empty(),
    }
}

pub open spec fn kw_const_errs(sdoc: Value, v: Value) -> Seq<VErr> {
    match kw(sdoc, "const"@) {
        Some(c) => if value_equiv(v, c) {
            Seq::empty()
        } else {
            kw_err("const"@, msg_const(v), v)
        },
        None => Seq::empty(),
    }
}

pub open spec fn kw_minimum_errs(sdoc: Value, v: Value) -> Seq<VErr> {
    match (kw_num(sdoc, "minimum"@), v) {
        (Some(m), Value::Number(x)) => if num_lt(x, m) {
            kw_err("minimum"@, msg_minimum(v, m), v)
        } else {
            Seq::empty()
        },
        _ => Seq::empty(),
    }
}

pub open spec fn kw_maximum_errs(sdoc: Value, v: Value) -> Seq<VErr> {
    match (kw_num(sdoc, "maximum"@), v) {
        (Some(m), Value::Number(x)) => if num_lt(m, x) {
            kw_err("maximum"@, msg_maximum(v, m), v)
        } else {
            Seq::empty()
        },
        _ => Seq::empty(),
    }
}

pub open spec fn kw_excl_min_errs(sdoc: Value, v: Value) -> Seq<VErr> {
    match (kw_num(sdoc, "exclusiveMinimum"@), v) {
        (Some(m), Value::Number(x)) => if num_le(x, m) {
            kw_err("exclusiveMinimum"@, msg_excl_min(v, m), v)
        } else {
            Seq::empty()
        },
        _ => Seq::empty(),
    }
}

pub open spec fn kw_excl_max_errs(sdoc: Value, v: Value) -> Seq<VErr> {
    match (kw_num(sdoc, "exclusiveMaximum"@), v) {
        (Some(m), Value::Number(x)) => if num_le(m, x) {
            kw_err("exclusiveMaximum"@, msg_excl_max(v, m), v)
        } else {
            Seq::empty()
        },
        _ => Seq::empty(),
    }
}

pub open spec fn kw_multiple_of_errs(sdoc: Value, v: Value) -> Seq<VErr> {
    match (kw_num(sdoc, "multipleOf"@), v) {
        (Some(m), Value::Number(x)) => if m.mant != 0 && !num_multiple_of(x, m) {
            kw_err("multipleOf"@, msg_multiple_of(v, m), v)
        } else {
            Seq::empty()
        },
        _ => Seq::empty(),
    }
}

pub open spec fn kw_min_length_errs(sdoc: Value, v: Value) -> Seq<VErr> {
    match (kw_num(sdoc, "minLength"@), v) {
        (Some(n), Value::Str(s)) => if num_is_int(n) && s@.len() < num_int_val(n) {
            kw_err("minLength"@, msg_min_length(v, n), v)
        } else {
            Seq::empty()
        },
        _ => Seq::empty(),
    }
}

pub open spec fn kw_max_length_errs(sdoc: Value, v: Value) -> Seq<VErr> {
    match (kw_num(sdoc, "maxLength"@), v) {
        (Some(n), Value::Str(s)) => if num_is_int(n) && s@.len() > num_int_val(n) {
            kw_err("maxLength"@, msg_max_length(v, n), v)
        } else {
            Seq::empty()
        },
        _ => Seq::empty(),
    }
}

pub open spec fn kw_pattern_errs(sdoc: Value, v: Value) -> Seq<VErr> {
    match (kw(sdoc, "pattern"@), v) {
        (Some(Value::Str(p)), Value::Str(s)) => if !pattern_valid(p@) {
            kw_err("pattern"@, msg_bad_pattern(p@), v)
        } else if !pattern_lang(p@).contains(s@) {
            kw_err("pattern"@, msg_pattern(v, p@), v)
        } else {
            Seq::empty()
        },
        _ => Seq::empty(),
    }
}

pub open spec fn required_errs(keys: Seq<Value>, ms: Seq<(String, Value)>, v: Value) -> Seq<VErr>
    decreases keys.len(),
{
    if keys.len() == 0 {
        Seq::empty()
    } else {
        let head = match keys[0] {
            Value::Str(k) => if lookup_seq(ms, k@) is None {
                kw_err("required"@, msg_required(k@), v)
            } else {
                Seq::empty()
            },
            _ => Seq::empty(),
        };
        head + required_errs(keys.drop_first(), ms, v)
    }
}

pub open spec fn kw_required_errs(sdoc: Value, v: Value) -> Seq<VErr> {
    match (kw(sdoc, "required"@), v) {
        (Some(Value::Array(keys)), Value::Object(ms)) => required_errs(keys@, ms@, v),
        _ => Seq::empty(),
    }
}

pub open spec fn dep_required_keys(
    keys: Seq<Value>,
    trig: Seq<char>,
    ms: Seq<(String, Value)>,
    v: Value,
) -> Seq<VErr>
    decreases keys.len(),
{
    if keys.len() == 0 {
        Seq::empty()
    } else {
        let head = match keys[0] {
            Value::Str(k) => if lookup_seq(ms, k@) is None {
                kw_err("dependentRequired"@, msg_dep_required(k@, trig), v)
            } else {
                Seq::empty()
            },
            _ => Seq::empty(),
        };
        head + dep_required_keys(keys.drop_first(), trig, ms, v)
    }
}

pub open spec fn dep_required_errs(
    deps: Seq<(String, Value)>,
    ms: Seq<(String, Value)>,
    v: Value,
) -> Seq<VErr>
    decreases deps.len(),
{
    if deps.len() == 0 {
        Seq::empty()
    } else {
        let head = match (lookup_seq(ms, deps[0].0@), deps[0].1) {
            (Some(_), Value::Array(keys)) => dep_required_keys(keys@, deps[0].0@, ms, v),
            _ => Seq::empty(),
        };
        head + dep_required_errs(deps.drop_first(), ms, v)
    }
}

pub open spec fn kw_dep_required_errs(sdoc: Value, v: Value) -> Seq<VErr> {
    match (kw(sdoc, "dependentRequired"@), v) {
        (Some(Value::Object(deps)), Value::Object(ms)) => dep_required_errs(deps@, ms@, v),
        _ => Seq::empty(),
    }
}

pub open spec fn has_dup(items: Seq<Value>) -> bool {
    exists|i: int, j: int| 0 <= i < j < items.len() && value_equiv(items[i], items[j])
}

pub open spec fn kw_unique_items_errs(sdoc: Value, v: Value) -> Seq<VErr> {
    match (kw(sdoc, "uniqueItems"@), v) {
        (Some(Value::Bool(true)), Value::Array(items)) => if has_dup(items@) {
            kw_err("uniqueItems"@, msg_unique(v), v)
        } else {
            Seq::empty()
        },
        _ => Seq::empty(),
    }
}

/// Whether any valid `patternProperties` pattern matches the member name `k`.
pub open spec fn any_pp_match(pps: Seq<(String, Value)>, k: Seq<char>) -> bool
    decreases pps.len(),
{
    pps.len() > 0 && {
        ||| (pattern_valid(pps[0].0@) && pattern_lang(pps[0].0@).contains(k))
        ||| any_pp_match(pps.drop_first(), k)
    }
}

/// The members of the `properties` keyword, if it is an object.
pub open spec fn props_of(sdoc: Value) -> Seq<(String, Value)> {
    match kw(sdoc, "properties"@) {
        Some(Value::Object(props)) => props@,
        _ => Seq::empty(),
    }
}

/// The members of the `patternProperties` keyword, if it is an object.
pub open spec fn pp_of(sdoc: Value) -> Seq<(String, Value)> {
    match kw(sdoc, "patternProperties"@) {
        Some(Value::Object(pps)) => pps@,
        _ => Seq::empty(),
    }
}

/// All violations of a schema document by an instance value.
///
/// A budget bounds the recursion depth; when it runs out, validation fails
/// closed with a single depth error.  Schema positions that are neither an
/// object nor a boolean constrain nothing.
pub open spec fn sem_errors(root: Value, sdoc: Value, v: Value, fuel: nat) -> Seq<VErr>
    decreases fuel, 1nat, 0nat,
{
    if fuel == 0 {
        seq![
            VErr {
                keyword: "depth"@,
                ipath: Seq::empty(),
                spath: Seq::empty(),
                msg: msg_depth(),
                value: v,
            },
        ]
    } else {
        match sdoc {
            Value::Bool(b) => if b {
                Seq::empty()
            } else {
                seq![
                    VErr {
                        keyword: "false"@,
                        ipath: Seq::empty(),
                        spath: Seq::empty(),
                        msg: msg_false_schema(v),
                        value: v,
                    },
                ]
            },
            Value::Object(_) => obj_errs(root, sdoc, v, (fuel - 1) as nat),
            _ => Seq::empty(),
        }
    }
}

/// The instance is valid: the schema produces no violations.
pub open spec fn sem_valid(root: Value, sdoc: Value, v: Value, fuel: nat) -> bool
    decreases fuel, 2nat, 0nat,
{
    sem_errors(root, sdoc, v, fuel).len() == 0
}

/// The violations of every keyword of a schema object, in a fixed keyword
/// order; `g` is the remaining depth budget for subschema evaluations.
pub open spec fn obj_errs(root: Value, sdoc: Value, v: Value, g: nat) -> Seq<VErr>
    decreases g, 23nat, 0nat,
{
    kw_type_errs(sdoc, v) + kw_enum_errs(sdoc, v) + kw_const_errs(sdoc, v) + kw_minimum_errs(
        sdoc,
        v,
    ) + kw_maximum_errs(sdoc, v) + kw_excl_min_errs(sdoc, v) + kw_excl_max_errs(sdoc, v)
        + kw_multiple_of_errs(sdoc, v) + kw_min_length_errs(sdoc, v) + kw_max_length_errs(sdoc, v)
        + kw_pattern_errs(sdoc, v) + kw_required_errs(sdoc, v) + kw_dep_required_errs(sdoc, v)
        + kw_properties_errs(root, sdoc, v, g) + kw_pp_errs(root, sdoc, v, g) + kw_addl_errs(
        root,
        sdoc,
        v,
        g,
    ) + kw_items_errs(root, sdoc, v, g) + kw_contains_errs(root, sdoc, v, g)
        + kw_unique_items_errs(sdoc, v) + kw_all_of_errs(root, sdoc, v, g) + kw_any_of_errs(
        root,
        sdoc,
        v,
        g,
    ) + kw_one_of_errs(root, sdoc, v, g) + kw_not_errs(root, sdoc, v, g) + kw_ifte_errs(
        root,
        sdoc,
        v,
        g,
    ) + kw_ref_errs(root, sdoc, v, g)
}

pub open spec fn props_errs(
    root: Value,
    props: Seq<(String, Value)>,
    ms: Seq<(String, Value)>,
    g: nat,
) -> Seq<VErr>
    decreases g, 10nat, props.len(),
{
    if props.len() == 0 {
        Seq::empty()
    } else {
        let head = match lookup_seq(ms, props[0].0@) {
            Some(child) => prefixed(
                sem_errors(root, props[0].1, child, g),
                seq![SegModel::Key(props[0].0@)],
                seq![SegModel::Key("properties"@), SegModel::Key(props[0].0@)],
            ),
            None => Seq::empty(),
        };
        head + props_errs(root, props.drop_first(), ms, g)
    }
}

pub open spec fn kw_properties_errs(root: Value, sdoc: Value, v: Value, g: nat) -> Seq<VErr>
    decreases g, 22nat, 0nat,
{
    match (kw(sdoc, "properties"@), v) {
        (Some(Value::Object(props)), Value::Object(ms)) => props_errs(root, props@, ms@, g),
        _ => Seq::empty(),
    }
}

/// Violations of one `patternProperties` pattern against the instance
/// members it matches, in member order.
pub open spec fn pp_one_errs(
    root: Value,
    pat: Seq<char>,
    sub: Value,
    ms: Seq<(String, Value)>,
    g: nat,
) -> Seq<VErr>
    decreases g, 9nat, ms.len(),
{
    if ms.len() == 0 {
        Seq::empty()
    } else {
        let head = if pattern_lang(pat).contains(ms[0].0@) {
            prefixed(
                sem_errors(root, sub, ms[0].1, g),
                seq![SegModel::Key(ms[0].0@)],
                seq![SegModel::Key("patternProperties"@), SegModel::Key(pat)],
            )
        } else {
            Seq::empty()
        };
        head + pp_one_errs(root, pat, sub, ms.drop_first(), g)
    }
}

pub open spec fn pp_errs(
    root: Value,
    pps: Seq<(String, Value)>,
    ms: Seq<(String, Value)>,
    v: Value,
    g: nat,
) -> Seq<VErr>
    decreases g, 10nat, pps.len(),
{
    if pps.len() == 0 {
        Seq::empty()
    } else {
        let head = if pattern_valid(pps[0].0@) {
            pp_one_errs(root, pps[0].0@, pps[0].1, ms, g)
        } else {
            seq![
                VErr {
                    keyword: "patternProperties"@,
                    ipath: Seq::empty(),
                    spath: seq![SegModel::Key("patternProperties"@), SegModel::Key(pps[0].0@)],
                    msg: msg_bad_pattern(pps[0].0@),
                    value: v,
                },
            ]
        };
        head + pp_errs(root, pps.drop_first(), ms, v, g)
    }
}

pub open spec fn kw_pp_errs(root: Value, sdoc: Value, v: Value, g: nat) -> Seq<VErr>
    decreases g, 22nat, 0nat,
{
    match (kw(sdoc, "patternProperties"@), v) {
        (Some(Value::Object(pps)), Value::Object(ms)) => pp_errs(root, pps@, ms@, v, g),
        _ => Seq::empty(),
    }
}

/// Violations of `additionalProperties` against the members that neither
/// `properties` names nor any valid `patternProperties` pattern matches.
pub open spec fn addl_errs(
    root: Value,
    sub: Value,
    props: Seq<(String, Value)>,
    pps: Seq<(String, Value)>,
    ms: Seq<(String, Value)>,
    g: nat,
) -> Seq<VErr>
    decreases g, 10nat, ms.len(),
{
    if ms.len() == 0 {
        Seq::empty()
    } else {
        let head = if lookup_seq(props, ms[0].0@) is None && !any_pp_match(pps, ms[0].0@) {
            prefixed(
                sem_errors(root, sub, ms[0].1, g),
                seq![SegModel::Key(ms[0].0@)],
                seq![SegModel::Key("additionalProperties"@)],
            )
        } else {
            Seq::empty()
        };
        head + addl_errs(root, sub, props, pps, ms.drop_first(), g)
    }
}

pub open spec fn kw_addl_errs(root: Value, sdoc: Value, v: Value, g: nat) -> Seq<VErr>
    decreases g, 22nat, 0nat,
{
    match (kw(sdoc, "additionalProperties"@), v) {
        (Some(sub), Value::Object(ms)) => addl_errs(root, sub, props_of(sdoc), pp_of(sdoc), ms@, g),
        _ => Seq::empty(),
    }
}

pub open spec fn items_errs(root: Value, sub: Value, items: Seq<Value>, i: int, g: nat) -> Seq<
    VErr,
>
    decreases g, 10nat, items.len() - i,
{
    if i < 0 || i >= items.len() {
        Seq::empty()
    } else {
        prefixed(
            sem_errors(root, sub, items[i], g),
            seq![SegModel::Index(i)],
            seq![SegModel::Key("items"@)],
        ) + items_errs(root, sub, items, i + 1, g)
    }
}

pub open spec fn kw_items_errs(root: Value, sdoc: Value, v: Value, g: nat) -> Seq<VErr>
    decreases g, 22nat, 0nat,
{
    match (kw(sdoc, "items"@), v) {
        (Some(sub), Value::Array(items)) => items_errs(root, sub, items@, 0, g),
        _ => Seq::empty(),
    }
}

pub open spec fn any_item_valid(root: Value, sub: Value, items: Seq<Value>, g: nat) -> bool
    decreases g, 10nat, items.len(),
{
    items.len() > 0 && {
        ||| sem_valid(root, sub, items[0], g)
        ||| any_item_valid(root, sub, items.drop_first(), g)
    }
}

pub open spec fn kw_contains_errs(root: Value, sdoc: Value, v: Value, g: nat) -> Seq<VErr>
    decreases g, 22nat, 0nat,
{
    match (kw(sdoc, "contains"@), v) {
        (Some(sub), Value::Array(items)) => if any_item_valid(root, sub, items@, g) {
            Seq::empty()
        } else {
            kw_err("contains"@, msg_contains(v), v)
        },
        _ => Seq::empty(),
    }
}

pub open spec fn all_of_errs(root: Value, subs: Seq<Value>, v: Value, i: int, g: nat) -> Seq<VErr>
    decreases g, 10nat, subs.len() - i,
{
    if i < 0 || i >= subs.len() {
        Seq::empty()
    } else {
        prefixed(
            sem_errors(root, subs[i], v, g),
            Seq::empty(),
            seq![SegModel::Key("allOf"@), SegModel::Index(i)],
        ) + all_of_errs(root, subs, v, i + 1, g)
    }
}

pub open spec fn kw_all_of_errs(root: Value, sdoc: Value, v: Value, g: nat) -> Seq<VErr>
    decreases g, 22nat, 0nat,
{
    match kw(sdoc, "allOf"@) {
        Some(Value::Array(subs)) => all_of_errs(root, subs@, v, 0, g),
        _ => Seq::empty(),
    }
}

pub open spec fn any_sub_valid(root: Value, subs: Seq<Value>, v: Value, g: nat) -> bool
    decreases g, 10nat, subs.len(),
{
    subs.len() > 0 && {
        ||| sem_valid(root, subs[0], v, g)
        ||| any_sub_valid(root, subs.drop_first(), v, g)
    }
}

pub open spec fn kw_any_of_errs(root: Value, sdoc: Value, v: Value, g: nat) -> Seq<VErr>
    decreases g, 22nat, 0nat,
{
    match kw(sdoc, "anyOf"@) {
        Some(Value::Array(subs)) => if any_sub_valid(root, subs@, v, g) {
            Seq::empty()
        } else {
            kw_err("anyOf"@, msg_any_of(v), v)
        },
        _ => Seq::empty(),
    }
}

pub open spec fn count_valid(root: Value, subs: Seq<Value>, v: Value, g: nat) -> int
    decreases g, 10nat, subs.len(),
{
    if subs.len() == 0 {
        0
    } else {
        (if sem_valid(root, subs[0], v, g) {
            1int
        } else {
            0int
        }) + count_valid(root, subs.drop_first(), v, g)
    }
}

pub open spec fn kw_one_of_errs(root: Value, sdoc: Value, v: Value, g: nat) -> Seq<VErr>
    decreases g, 22nat, 0nat,
{
    match kw(sdoc, "oneOf"@) {
        Some(Value::Array(subs)) => if count_valid(root, subs@, v, g) == 1 {
            Seq::empty()
        } else {
            kw_err("oneOf"@, msg_one_of(v), v)
        },
        _ => Seq::empty(),
    }
}

pub open spec fn kw_not_errs(root: Value, sdoc: Value, v: Value, g: nat) -> Seq<VErr>
    decreases g, 22nat, 0nat,
{
    match kw(sdoc, "not"@) {
        Some(sub) => if sem_valid(root, sub, v, g) {
            kw_err("not"@, msg_not(v), v)
        } else {
            Seq::empty()
        },
        None => Seq::empty(),
    }
}

pub open spec fn kw_ifte_errs(root: Value, sdoc: Value, v: Value, g: nat) -> Seq<VErr>
    decreases g, 22nat, 0nat,
{
    match kw(sdoc, "if"@) {
        Some(c) => if sem_valid(root, c, v, g) {
            match kw(sdoc, "then"@) {
                Some(t) => prefixed(
                    sem_errors(root, t, v, g),
                    Seq::empty(),
                    seq![SegModel::Key("then"@)],
                ),
                None => Seq::empty(),
            }
        } else {
            match kw(sdoc, "else"@) {
                Some(t) => prefixed(
                    sem_errors(root, t, v, g),
                    Seq::empty(),
                    seq![SegModel::Key("else"@)],
                ),
                None => Seq::empty(),
            }
        },
        None => Seq::empty(),
    }
}

/// `$ref` evaluates the same instance against the resolved target; errors
/// keep the target's own schema paths.
pub open spec fn kw_ref_errs(root: Value, sdoc: Value, v: Value, g: nat) -> Seq<VErr>
    decreases g, 22nat, 0nat,
{
    match kw(sdoc, "$ref"@) {
        Some(Value::Str(r)) => match ptr_resolve(root, r@) {
            Some(t) => sem_errors(root, t, v, g),
            None => kw_err("$ref"@, msg_bad_ref(r@), v),
        },
        _ => Seq::empty(),
    }
}

} // verus!
