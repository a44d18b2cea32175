//! Schema compilation: meta-validation against the keyword shapes of the
//! dialect, reference resolution, and the pattern table that compiles every
//! regular expression once, before any evaluation.

use vstd::prelude::*;

verus! {

use vstd::string::StringExecFns;
use crate::num::num_is_int;
use crate::num::num_int_val;
use crate::value::Value;
use crate::value::value_size;
use crate::value::seq_value_size;
use crate::value::seq_member_size;
use crate::value::lookup_seq;
use crate::sem::SegModel;
use crate::sem::quoted;
use crate::rx::pattern_valid;
use crate::ptr::ptr_resolve;

/// A structural fault found by meta-validation: the schema-relative path of
/// the offending keyword and the keyword's name.
pub struct MetaFault {
    pub spath: Seq<SegModel>,
    pub kw: Seq<char>,
}

pub open spec fn fault(kw: Seq<char>) -> Option<MetaFault> {
    Some(MetaFault { spath: seq![SegModel::Key(kw)], kw: kw })
}

pub open spec fn fault_or(a: Option<MetaFault>, b: Option<MetaFault>) -> Option<MetaFault> {
    if a is Some {
        a
    } else {
        b
    }
}

pub open spec fn fault_prefix(o: Option<MetaFault>, segs: Seq<SegModel>) -> Option<MetaFault> {
    match o {
        Some(e) => Some(MetaFault { spath: segs + e.spath, kw: e.kw }),
        None => None,
    }
}

/// The recognized primitive type names.
pub open spec fn known_type_name(s: Seq<char>) -> bool {
    ||| s == "null"@
    ||| s == "boolean"@
    ||| s == "object"@
    ||| s == "array"@
    ||| s == "string"@
    ||| s == "number"@
    ||| s == "integer"@
}

pub open spec fn all_type_names(names: Seq<Value>) -> bool
    decreases names.len(),
{
    names.len() == 0 || {
        &&& (names[0] matches Value::Str(s) && known_type_name(s@))
        &&& all_type_names(names.drop_first())
    }
}

pub open spec fn all_strings(keys: Seq<Value>) -> bool
    decreases keys.len(),
{
    keys.len() == 0 || (keys[0] is Str && all_strings(keys.drop_first()))
}

/// The shape of a `dependentRequired` object: every value an array of strings.
pub open spec fn dep_shape_fault(deps: Seq<(String, Value)>) -> Option<MetaFault>
    decreases deps.len(),
{
    if deps.len() == 0 {
        None
    } else {
        let head: Option<MetaFault> = match deps[0].1 {
            Value::Array(keys) => if all_strings(keys@) {
                None
            } else {
                Some(
                    MetaFault {
                        spath: seq![
                            SegModel::Key("dependentRequired"@),
                            SegModel::Key(deps[0].0@),
                        ],
                        kw: "dependentRequired"@,
                    },
                )
            },
            _ => Some(
                MetaFault {
                    spath: seq![SegModel::Key("dependentRequired"@), SegModel::Key(deps[0].0@)],
                    kw: "dependentRequired"@,
                },
            ),
        };
        fault_or(head, dep_shape_fault(deps.drop_first()))
    }
}

/// The first structural fault of a schema document, in document order.
///
/// A schema is a boolean or an object; each recognized keyword's value must
/// have the shape its dialect gives it, and every subschema position recurses.
/// Unrecognized keywords are ignored by design.
pub open spec fn meta_fault(sdoc: Value) -> Option<MetaFault>
    decreases value_size(sdoc), 0nat, 0nat,
{
    match sdoc {
        Value::Bool(_) => None,
        Value::Object(ms) => meta_members(ms@),
        _ => Some(MetaFault { spath: Seq::empty(), kw: "schema"@ }),
    }
}

pub open spec fn meta_members(ms: Seq<(String, Value)>) -> Option<MetaFault>
    decreases seq_member_size(ms), 2nat, ms.len(),
{
    if ms.len() == 0 {
        None
    } else {
        fault_or(meta_member(ms[0]), meta_members(ms.drop_first()))
    }
}

/// Schema positions keyed by a single subschema.
pub open spec fn subschema_kw(k: Seq<char>) -> bool {
    ||| k == "additionalProperties"@
    ||| k == "items"@
    ||| k == "contains"@
    ||| k == "not"@
    ||| k == "if"@
    ||| k == "then"@
    ||| k == "else"@
}

/// Schema positions holding a map from names to subschemas.
pub open spec fn schema_map_kw(k: Seq<char>) -> bool {
    ||| k == "properties"@
    ||| k == "patternProperties"@
    ||| k == "$defs"@
    ||| k == "definitions"@
}

/// Schema positions holding a non-empty array of subschemas.
pub open spec fn schema_array_kw(k: Seq<char>) -> bool {
    ||| k == "allOf"@
    ||| k == "anyOf"@
    ||| k == "oneOf"@
}

pub open spec fn meta_member(m: (String, Value)) -> Option<MetaFault>
    decreases value_size(m.1), 1nat, 0nat,
{
    let k = m.0@;
    if k == "type"@ {
        match m.1 {
            Value::Str(s) => if known_type_name(s@) {
                None
            } else {
                fault(k)
            },
            Value::Array(names) => if all_type_names(names@) {
                None
            } else {
                fault(k)
            },
            _ => fault(k),
        }
    } else if k == "enum"@ {
        if m.1 is Array {
            None
        } else {
            fault(k)
        }
    } else if k == "minimum"@ || k == "maximum"@ || k == "exclusiveMinimum"@
        || k == "exclusiveMaximum"@ {
        if m.1 is Number {
            None
        } else {
            fault(k)
        }
    } else if k == "multipleOf"@ {
        match m.1 {
            Value::Number(n) => if n.mant > 0 {
                None
            } else {
                fault(k)
            },
            _ => fault(k),
        }
    } else if k == "minLength"@ || k == "maxLength"@ {
        match m.1 {
            Value::Number(n) => if num_is_int(n) && num_int_val(n) >= 0 {
                None
            } else {
                fault(k)
            },
            _ => fault(k),
        }
    } else if k == "pattern"@ {
        match m.1 {
            Value::Str(p) => if pattern_valid(p@) {
                None
            } else {
                fault(k)
            },
            _ => fault(k),
        }
    } else if k == "required"@ {
        match m.1 {
            Value::Array(keys) => if all_strings(keys@) {
                None
            } else {
                fault(k)
            },
            _ => fault(k),
        }
    } else if k == "dependentRequired"@ {
        match m.1 {
            Value::Object(deps) => dep_shape_fault(deps@),
            _ => fault(k),
        }
    } else if k == "uniqueItems"@ {
        if m.1 is Bool {
            None
        } else {
            fault(k)
        }
    } else if k == "$ref"@ {
        if m.1 is Str {
            None
        } else {
            fault(k)
        }
    } else if subschema_kw(k) {
        fault_prefix(meta_fault(m.1), seq![SegModel::Key(k)])
    } else if schema_map_kw(k) {
        match m.1 {
            Value::Object(props) => meta_schema_map(k, props@, k == "patternProperties"@),
            _ => fault(k),
        }
    } else if schema_array_kw(k) {
        match m.1 {
            Value::Array(subs) => if subs@.len() == 0 {
                fault(k)
            } else {
                meta_schema_array(k, subs@, 0)
            },
            _ => fault(k),
        }
    } else {
        None
    }
}

pub open spec fn meta_schema_map(
    name: Seq<char>,
    props: Seq<(String, Value)>,
    keys_are_patterns: bool,
) -> Option<MetaFault>
    decreases seq_member_size(props), 2nat, props.len(),
{
    if props.len() == 0 {
        None
    } else {
        let here = seq![SegModel::Key(name), SegModel::Key(props[0].0@)];
        let head: Option<MetaFault> = if keys_are_patterns && !pattern_valid(props[0].0@) {
            Some(MetaFault { spath: here, kw: name })
        } else {
            fault_prefix(meta_fault(props[0].1), here)
        };
        fault_or(head, meta_schema_map(name, props.drop_first(), keys_are_patterns))
    }
}

pub open spec fn meta_schema_array(name: Seq<char>, subs: Seq<Value>, i: int) -> Option<MetaFault>
    decreases seq_value_size(subs), 2nat, subs.len(),
{
    if subs.len() == 0 {
        None
    } else {
        fault_or(
            fault_prefix(
                meta_fault(subs[0]),
                seq![SegModel::Key(name), SegModel::Index(i)],
            ),
            meta_schema_array(name, subs.drop_first(), i + 1),
        )
    }
}

/// Whether the root's `$schema` keyword, if any, names a recognized dialect.
pub open spec fn dialect_ok(doc: Value) -> bool {
    match doc {
        Value::Object(ms) => match lookup_seq(ms@, "$schema"@) {
            Some(Value::Str(u)) => known_dialect(u@),
            Some(_) => false,
            None => true,
        },
        _ => true,
    }
}

pub open spec fn known_dialect(u: Seq<char>) -> bool {
    ||| u == "https://json-schema.org/draft/2020-12/schema"@
    ||| u == "https://json-schema.org/draft/2019-09/schema"@
    ||| u == "http://json-schema.org/draft-07/schema#"@
    ||| u == "http://json-schema.org/draft-06/schema#"@
    ||| u == "http://json-schema.org/draft-04/schema#"@
}

/// A schema passes meta-validation: a recognized dialect, and no structural
/// fault anywhere in it.
pub open spec fn schema_ok(doc: Value) -> bool {
    dialect_ok(doc) && meta_fault(doc) is None
}

/// The first structurally unresolvable `$ref` in the schema tree: its
/// reference string and the path of the keyword.
pub open spec fn ref_fault(root: Value, sdoc: Value) -> Option<(Seq<char>, Seq<SegModel>)>
    decreases value_size(sdoc), 0nat, 0nat,
{
    match sdoc {
        Value::Object(ms) => ref_members(root, ms@),
        _ => None,
    }
}

pub open spec fn rf_prefix(
    o: Option<(Seq<char>, Seq<SegModel>)>,
    segs: Seq<SegModel>,
) -> Option<(Seq<char>, Seq<SegModel>)> {
    match o {
        Some(e) => Some((e.0, segs + e.1)),
        None => None,
    }
}

pub open spec fn rf_or(
    a: Option<(Seq<char>, Seq<SegModel>)>,
    b: Option<(Seq<char>, Seq<SegModel>)>,
) -> Option<(Seq<char>, Seq<SegModel>)> {
    if a is Some {
        a
    } else {
        b
    }
}

pub open spec fn ref_members(root: Value, ms: Seq<(String, Value)>) -> Option<
    (Seq<char>, Seq<SegModel>),
>
    decreases seq_member_size(ms), 2nat, ms.len(),
{
    if ms.len() == 0 {
        None
    } else {
        rf_or(ref_member(root, ms[0]), ref_members(root, ms.drop_first()))
    }
}

pub open spec fn ref_member(root: Value, m: (String, Value)) -> Option<(Seq<char>, Seq<SegModel>)>
    decreases value_size(m.1), 1nat, 0nat,
{
    let k = m.0@;
    if k == "$ref"@ {
        match m.1 {
            Value::Str(r) => if ptr_resolve(root, r@) is Some {
                None
            } else {
                Some((r@, seq![SegModel::Key("$ref"@)]))
            },
            _ => None,
        }
    } else if subschema_kw(k) {
        rf_prefix(ref_fault(root, m.1), seq![SegModel::Key(k)])
    } else if schema_map_kw(k) {
        match m.1 {
            Value::Object(props) => ref_schema_map(root, k, props@),
            _ => None,
        }
    } else if schema_array_kw(k) {
        match m.1 {
            Value::Array(subs) => ref_schema_array(root, k, subs@, 0),
            _ => None,
        }
    } else {
        None
    }
}

pub open spec fn ref_schema_map(root: Value, name: Seq<char>, props: Seq<(String, Value)>) -> Option<
    (Seq<char>, Seq<SegModel>),
>
    decreases seq_member_size(props), 2nat, props.len(),
{
    if props.len() == 0 {
        None
    } else {
        rf_or(
            rf_prefix(
                ref_fault(root, props[0].1),
                seq![SegModel::Key(name), SegModel::Key(props[0].0@)],
            ),
            ref_schema_map(root, name, props.drop_first()),
        )
    }
}

pub open spec fn ref_schema_array(root: Value, name: Seq<char>, subs: Seq<Value>, i: int) -> Option<
    (Seq<char>, Seq<SegModel>),
>
    decreases seq_value_size(subs), 2nat, subs.len(),
{
    if subs.len() == 0 {
        None
    } else {
        rf_or(
            rf_prefix(
                ref_fault(root, subs[0]),
                seq![SegModel::Key(name), SegModel::Index(i)],
            ),
            ref_schema_array(root, name, subs.drop_first(), i + 1),
        )
    }
}

/// Why a schema fails to compile, in order of precedence: an unrecognized
/// dialect, then the first structural fault, then the first dangling `$ref`.
pub enum CompileFault {
    Dialect,
    Shape(MetaFault),
    Reference(Seq<char>, Seq<SegModel>),
}

pub open spec fn compile_fault(doc: Value) -> Option<CompileFault> {
    if !dialect_ok(doc) {
        Some(CompileFault::Dialect)
    } else {
        match meta_fault(doc) {
            Some(e) => Some(CompileFault::Shape(e)),
            None => match ref_fault(doc, doc) {
                Some(rf) => Some(CompileFault::Reference(rf.0, rf.1)),
                None => None,
            },
        }
    }
}

/// The message a compile failure renders to.
pub open spec fn compile_fault_msg(f: CompileFault) -> Seq<char> {
    match f {
        CompileFault::Dialect => "the \"$schema\" dialect is not recognized"@,
        CompileFault::Shape(e) => "invalid schema: bad value for keyword "@ + quoted(e.kw),
        CompileFault::Reference(r, _) => crate::sem::msg_bad_ref(r),
    }
}

use crate::eval::PathSeg;
use crate::eval::segs_model;
use crate::eval::table_ok;
use crate::eval::in_table;
use crate::eval::covers;
use crate::eval::local_patterns_ok;
use crate::eval::members_covered;
use crate::eval::items_covered;
use crate::eval::keys_in_table;
use crate::eval::str_eq;

/// A meta-validation finding as reported to callers.
pub struct MetaIssue {
    pub schema_path: Vec<PathSeg>,
    pub keyword: String,
}

pub open spec fn issue_model(e: MetaIssue) -> MetaFault {
    MetaFault { spath: segs_model(e.schema_path@), kw: e.keyword@ }
}

/// A single-keyword finding whose path is the keyword itself.
fn mk_fault(kw: &str) -> (r: MetaIssue)
    ensures
        Some(issue_model(r)) == fault(kw@),
{
    let mut sp: Vec<PathSeg> = Vec::new();
    sp.push(PathSeg::Key(String::from_str(kw)));
    let r = MetaIssue { schema_path: sp, keyword: String::from_str(kw) };
    proof {
        assert(segs_model(r.schema_path@) =~= seq![SegModel::Key(kw@)]);
    }
    r
}

/// Prepends the path of the position an inner finding was found under.
fn prefix_issue(pre: Vec<PathSeg>, e: MetaIssue) -> (r: MetaIssue)
    ensures
        issue_model(r) == (MetaFault {
            spath: segs_model(pre@) + issue_model(e).spath,
            kw: issue_model(e).kw,
        }),
{
    let MetaIssue { schema_path, keyword } = e;
    let mut p = pre;
    let mut tail = schema_path;
    p.append(&mut tail);
    let r = MetaIssue { schema_path: p, keyword };
    proof {
        assert(segs_model(r.schema_path@) =~= segs_model(pre@) + segs_model(e.schema_path@));
    }
    r
}

fn all_type_names_exec(names: &Vec<Value>, i: usize) -> (r: bool)
    requires
        i <= names@.len(),
    ensures
        r == all_type_names(names@.skip(i as int)),
    decreases names@.len() - i,
{
    let ghost s = names@.skip(i as int);
    if i == names.len() {
        return true;
    }
    proof {
        assert(s.drop_first() =~= names@.skip(i as int + 1));
        assert(s[0] == names@[i as int]);
    }
    let head = match &names[i] {
        Value::Str(nm) => {
            str_eq(nm.as_str(), "null") || str_eq(nm.as_str(), "boolean") || str_eq(
                nm.as_str(),
                "object",
            ) || str_eq(nm.as_str(), "array") || str_eq(nm.as_str(), "string") || str_eq(
                nm.as_str(),
                "number",
            ) || str_eq(nm.as_str(), "integer")
        },
        _ => false,
    };
    if head {
        all_type_names_exec(names, i + 1)
    } else {
        false
    }
}

fn all_strings_exec(keys: &Vec<Value>, i: usize) -> (r: bool)
    requires
        i <= keys@.len(),
    ensures
        r == all_strings(keys@.skip(i as int)),
    decreases keys@.len() - i,
{
    let ghost s = keys@.skip(i as int);
    if i == keys.len() {
        return true;
    }
    proof {
        assert(s.drop_first() =~= keys@.skip(i as int + 1));
        assert(s[0] == keys@[i as int]);
    }
    if matches!(&keys[i], Value::Str(_)) {
        all_strings_exec(keys, i + 1)
    } else {
        false
    }
}

fn dep_shape_check(deps: &Vec<(String, Value)>, i: usize) -> (r: Option<MetaIssue>)
    requires
        i <= deps@.len(),
    ensures
        match r {
            Some(e) => dep_shape_fault(deps@.skip(i as int)) == Some(issue_model(e)),
            None => dep_shape_fault(deps@.skip(i as int)) is None,
        },
    decreases deps@.len() - i,
{
    let ghost s = deps@.skip(i as int);
    if i == deps.len() {
        return None;
    }
    proof {
        assert(s.drop_first() =~= deps@.skip(i as int + 1));
        assert(s[0] == deps@[i as int]);
    }
    let ok = match &deps[i].1 {
        Value::Array(keys) => {
            proof {
                assert(keys@.skip(0) =~= keys@);
            }
            all_strings_exec(keys, 0)
        },
        _ => false,
    };
    if !ok {
        let mut sp: Vec<PathSeg> = Vec::new();
        sp.push(PathSeg::Key(String::from_str("dependentRequired")));
        sp.push(PathSeg::Key(deps[i].0.clone()));
        let e = MetaIssue { schema_path: sp, keyword: String::from_str("dependentRequired") };
        proof {
            assert(segs_model(e.schema_path@) =~= seq![
                SegModel::Key("dependentRequired"@),
                SegModel::Key(deps@[i as int].0@),
            ]);
        }
        return Some(e);
    }
    dep_shape_check(deps, i + 1)
}

/// Meta-validates one schema position.
pub fn meta_check(sdoc: &Value) -> (r: Option<MetaIssue>)
    ensures
        match r {
            Some(e) => meta_fault(*sdoc) == Some(issue_model(e)),
            None => meta_fault(*sdoc) is None,
        },
    decreases value_size(*sdoc), 0nat, 0nat,
{
    match sdoc {
        Value::Bool(_) => None,
        Value::Object(ms) => {
            proof {
                assert(ms@.skip(0) =~= ms@);
            }
            meta_members_check(ms, 0)
        },
        _ => {
            let e = MetaIssue { schema_path: Vec::new(), keyword: String::from_str("schema") };
            proof {
                assert(segs_model(e.schema_path@) =~= Seq::<SegModel>::empty());
            }
            Some(e)
        },
    }
}

fn meta_members_check(ms: &Vec<(String, Value)>, i: usize) -> (r: Option<MetaIssue>)
    requires
        i <= ms@.len(),
    ensures
        match r {
            Some(e) => meta_members(ms@.skip(i as int)) == Some(issue_model(e)),
            None => meta_members(ms@.skip(i as int)) is None,
        },
    decreases crate::value::seq_member_size(ms@.skip(i as int)), 2nat, 0nat,
{
    let ghost s = ms@.skip(i as int);
    if i == ms.len() {
        return None;
    }
    proof {
        assert(s.drop_first() =~= ms@.skip(i as int + 1));
        assert(s[0] == ms@[i as int]);
        crate::value::lemma_member_size_unfold(ms@, i as int);
        crate::value::lemma_value_size_pos(ms@[i as int].1);
    }
    match meta_member_check(&ms[i]) {
        Some(e) => Some(e),
        None => meta_members_check(ms, i + 1),
    }
}

fn meta_member_check(m: &(String, Value)) -> (r: Option<MetaIssue>)
    ensures
        match r {
            Some(e) => meta_member(*m) == Some(issue_model(e)),
            None => meta_member(*m) is None,
        },
    decreases value_size(m.1), 1nat, 0nat,
{
    let k = m.0.as_str();
    if str_eq(k, "type") {
        let ok = match &m.1 {
            Value::Str(s) => {
                str_eq(s.as_str(), "null") || str_eq(s.as_str(), "boolean") || str_eq(
                    s.as_str(),
                    "object",
                ) || str_eq(s.as_str(), "array") || str_eq(s.as_str(), "string") || str_eq(
                    s.as_str(),
                    "number",
                ) || str_eq(s.as_str(), "integer")
            },
            Value::Array(names) => {
                proof {
                    assert(names@.skip(0) =~= names@);
                }
                all_type_names_exec(names, 0)
            },
            _ => false,
        };
        if ok {
            None
        } else {
            Some(mk_fault("type"))
        }
    } else if str_eq(k, "enum") {
        if matches!(&m.1, Value::Array(_)) {
            None
        } else {
            Some(mk_fault("enum"))
        }
    } else if str_eq(k, "minimum") || str_eq(k, "maximum") || str_eq(k, "exclusiveMinimum")
        || str_eq(k, "exclusiveMaximum") {
        if matches!(&m.1, Value::Number(_)) {
            None
        } else {
            let mut sp: Vec<PathSeg> = Vec::new();
            sp.push(PathSeg::Key(m.0.clone()));
            let e = MetaIssue { schema_path: sp, keyword: m.0.clone() };
            proof {
                assert(segs_model(e.schema_path@) =~= seq![SegModel::Key(m.0@)]);
            }
            Some(e)
        }
    } else if str_eq(k, "multipleOf") {
        let ok = match &m.1 {
            Value::Number(n) => n.mant > 0,
            _ => false,
        };
        if ok {
            None
        } else {
            Some(mk_fault("multipleOf"))
        }
    } else if str_eq(k, "minLength") || str_eq(k, "maxLength") {
        let ok = match &m.1 {
            Value::Number(n) => match crate::num::num_int_range(n) {
                crate::num::NumInt::Exact(_) => true,
                crate::num::NumInt::Above => true,
                crate::num::NumInt::Below => false,
                crate::num::NumInt::NotInt => false,
            },
            _ => false,
        };
        if ok {
            None
        } else {
            let mut sp: Vec<PathSeg> = Vec::new();
            sp.push(PathSeg::Key(m.0.clone()));
            let e = MetaIssue { schema_path: sp, keyword: m.0.clone() };
            proof {
                assert(segs_model(e.schema_path@) =~= seq![SegModel::Key(m.0@)]);
            }
            Some(e)
        }
    } else if str_eq(k, "pattern") {
        let ok = match &m.1 {
            Value::Str(p) => crate::rx::regex_new(p.as_str()).is_some(),
            _ => false,
        };
        if ok {
            None
        } else {
            Some(mk_fault("pattern"))
        }
    } else if str_eq(k, "required") {
        let ok = match &m.1 {
            Value::Array(keys) => {
                proof {
                    assert(keys@.skip(0) =~= keys@);
                }
                all_strings_exec(keys, 0)
            },
            _ => false,
        };
        if ok {
            None
        } else {
            Some(mk_fault("required"))
        }
    } else if str_eq(k, "dependentRequired") {
        match &m.1 {
            Value::Object(deps) => {
                proof {
                    assert(deps@.skip(0) =~= deps@);
                }
                dep_shape_check(deps, 0)
            },
            _ => Some(mk_fault("dependentRequired")),
        }
    } else if str_eq(k, "uniqueItems") {
        if matches!(&m.1, Value::Bool(_)) {
            None
        } else {
            Some(mk_fault("uniqueItems"))
        }
    } else if str_eq(k, "$ref") {
        if matches!(&m.1, Value::Str(_)) {
            None
        } else {
            Some(mk_fault("$ref"))
        }
    } else if str_eq(k, "additionalProperties") || str_eq(k, "items") || str_eq(k, "contains")
        || str_eq(k, "not") || str_eq(k, "if") || str_eq(k, "then") || str_eq(k, "else") {
        match meta_check(&m.1) {
            Some(e) => {
                let mut pre: Vec<PathSeg> = Vec::new();
                pre.push(PathSeg::Key(m.0.clone()));
                proof {
                    assert(segs_model(pre@) =~= seq![SegModel::Key(m.0@)]);
                }
                Some(prefix_issue(pre, e))
            },
            None => None,
        }
    } else if str_eq(k, "properties") || str_eq(k, "patternProperties") || str_eq(k, "$defs")
        || str_eq(k, "definitions") {
        match &m.1 {
            Value::Object(props) => {
                proof {
                    assert(props@.skip(0) =~= props@);
                }
                meta_map_check(&m.0, props, str_eq(k, "patternProperties"), 0)
            },
            _ => {
                let mut sp: Vec<PathSeg> = Vec::new();
                sp.push(PathSeg::Key(m.0.clone()));
                let e = MetaIssue { schema_path: sp, keyword: m.0.clone() };
                proof {
                    assert(segs_model(e.schema_path@) =~= seq![SegModel::Key(m.0@)]);
                }
                Some(e)
            },
        }
    } else if str_eq(k, "allOf") || str_eq(k, "anyOf") || str_eq(k, "oneOf") {
        match &m.1 {
            Value::Array(subs) => {
                if subs.len() == 0 {
                    let mut sp: Vec<PathSeg> = Vec::new();
                    sp.push(PathSeg::Key(m.0.clone()));
                    let e = MetaIssue { schema_path: sp, keyword: m.0.clone() };
                    proof {
                        assert(segs_model(e.schema_path@) =~= seq![SegModel::Key(m.0@)]);
                    }
                    Some(e)
                } else {
                    proof {
                        assert(subs@.skip(0) =~= subs@);
                    }
                    meta_array_check(&m.0, subs, 0)
                }
            },
            _ => {
                let mut sp: Vec<PathSeg> = Vec::new();
                sp.push(PathSeg::Key(m.0.clone()));
                let e = MetaIssue { schema_path: sp, keyword: m.0.clone() };
                proof {
                    assert(segs_model(e.schema_path@) =~= seq![SegModel::Key(m.0@)]);
                }
                Some(e)
            },
        }
    } else {
        None
    }
}

fn meta_map_check(
    name: &String,
    props: &Vec<(String, Value)>,
    keys_are_patterns: bool,
    i: usize,
) -> (r: Option<MetaIssue>)
    requires
        i <= props@.len(),
    ensures
        match r {
            Some(e) => meta_schema_map(name@, props@.skip(i as int), keys_are_patterns) == Some(
                issue_model(e),
            ),
            None => meta_schema_map(name@, props@.skip(i as int), keys_are_patterns) is None,
        },
    decreases crate::value::seq_member_size(props@.skip(i as int)), 2nat, 0nat,
{
    let ghost s = props@.skip(i as int);
    if i == props.len() {
        return None;
    }
    proof {
        assert(s.drop_first() =~= props@.skip(i as int + 1));
        assert(s[0] == props@[i as int]);
        crate::value::lemma_member_size_unfold(props@, i as int);
        crate::value::lemma_value_size_pos(props@[i as int].1);
    }
    let key_bad = keys_are_patterns && crate::rx::regex_new(props[i].0.as_str()).is_none();
    if key_bad {
        let mut sp: Vec<PathSeg> = Vec::new();
        sp.push(PathSeg::Key(name.clone()));
        sp.push(PathSeg::Key(props[i].0.clone()));
        let e = MetaIssue { schema_path: sp, keyword: name.clone() };
        proof {
            assert(segs_model(e.schema_path@) =~= seq![
                SegModel::Key(name@),
                SegModel::Key(props@[i as int].0@),
            ]);
        }
        return Some(e);
    }
    match meta_check(&props[i].1) {
        Some(e) => {
            let mut pre: Vec<PathSeg> = Vec::new();
            pre.push(PathSeg::Key(name.clone()));
            pre.push(PathSeg::Key(props[i].0.clone()));
            proof {
                assert(segs_model(pre@) =~= seq![
                    SegModel::Key(name@),
                    SegModel::Key(props@[i as int].0@),
                ]);
            }
            Some(prefix_issue(pre, e))
        },
        None => meta_map_check(name, props, keys_are_patterns, i + 1),
    }
}

fn meta_array_check(name: &String, subs: &Vec<Value>, i: usize) -> (r: Option<MetaIssue>)
    requires
        i <= subs@.len(),
    ensures
        match r {
            Some(e) => meta_schema_array(name@, subs@.skip(i as int), i as int) == Some(
                issue_model(e),
            ),
            None => meta_schema_array(name@, subs@.skip(i as int), i as int) is None,
        },
    decreases crate::value::seq_value_size(subs@.skip(i as int)), 2nat, 0nat,
{
    let ghost s = subs@.skip(i as int);
    if i == subs.len() {
        return None;
    }
    proof {
        assert(s.drop_first() =~= subs@.skip(i as int + 1));
        assert(s[0] == subs@[i as int]);
        crate::value::lemma_seq_size_unfold(subs@, i as int);
        crate::value::lemma_value_size_pos(subs@[i as int]);
    }
    match meta_check(&subs[i]) {
        Some(e) => {
            let mut pre: Vec<PathSeg> = Vec::new();
            pre.push(PathSeg::Key(name.clone()));
            pre.push(PathSeg::Index(i));
            proof {
                assert(segs_model(pre@) =~= seq![SegModel::Key(name@), SegModel::Index(i as int)]);
            }
            Some(prefix_issue(pre, e))
        },
        None => meta_array_check(name, subs, i + 1),
    }
}

/// A dangling-reference finding: the reference string and where it stood.
pub struct RefIssue {
    pub reference: String,
    pub schema_path: Vec<PathSeg>,
}

pub open spec fn ref_issue_model(e: RefIssue) -> (Seq<char>, Seq<SegModel>) {
    (e.reference@, segs_model(e.schema_path@))
}

pub fn ref_check(root: &Value, sdoc: &Value) -> (r: Option<RefIssue>)
    ensures
        match r {
            Some(e) => ref_fault(*root, *sdoc) == Some(ref_issue_model(e)),
            None => ref_fault(*root, *sdoc) is None,
        },
    decreases value_size(*sdoc), 0nat, 0nat,
{
    match sdoc {
        Value::Object(ms) => {
            proof {
                assert(ms@.skip(0) =~= ms@);
            }
            ref_members_check(root, ms, 0)
        },
        _ => None,
    }
}

fn ref_members_check(root: &Value, ms: &Vec<(String, Value)>, i: usize) -> (r: Option<RefIssue>)
    requires
        i <= ms@.len(),
    ensures
        match r {
            Some(e) => ref_members(*root, ms@.skip(i as int)) == Some(ref_issue_model(e)),
            None => ref_members(*root, ms@.skip(i as int)) is None,
        },
    decreases crate::value::seq_member_size(ms@.skip(i as int)), 2nat, 0nat,
{
    let ghost s = ms@.skip(i as int);
    if i == ms.len() {
        return None;
    }
    proof {
        assert(s.drop_first() =~= ms@.skip(i as int + 1));
        assert(s[0] == ms@[i as int]);
        crate::value::lemma_member_size_unfold(ms@, i as int);
        crate::value::lemma_value_size_pos(ms@[i as int].1);
    }
    match ref_member_check(root, &ms[i]) {
        Some(e) => Some(e),
        None => ref_members_check(root, ms, i + 1),
    }
}

fn ref_prefix(pre: Vec<PathSeg>, e: RefIssue) -> (r: RefIssue)
    ensures
        ref_issue_model(r) == (ref_issue_model(e).0, segs_model(pre@) + ref_issue_model(e).1),
{
    let RefIssue { reference, schema_path } = e;
    let mut p = pre;
    let mut tail = schema_path;
    p.append(&mut tail);
    let r = RefIssue { reference, schema_path: p };
    proof {
        assert(segs_model(r.schema_path@) =~= segs_model(pre@) + segs_model(e.schema_path@));
    }
    r
}

fn ref_member_check(root: &Value, m: &(String, Value)) -> (r: Option<RefIssue>)
    ensures
        match r {
            Some(e) => ref_member(*root, *m) == Some(ref_issue_model(e)),
            None => ref_member(*root, *m) is None,
        },
    decreases value_size(m.1), 1nat, 0nat,
{
    let k = m.0.as_str();
    if str_eq(k, "$ref") {
        match &m.1 {
            Value::Str(rp) => {
                if crate::ptr::resolve_pointer(root, rp.as_str()).is_some() {
                    None
                } else {
                    let mut sp: Vec<PathSeg> = Vec::new();
                    sp.push(PathSeg::Key(String::from_str("$ref")));
                    let e = RefIssue { reference: rp.clone(), schema_path: sp };
                    proof {
                        assert(segs_model(e.schema_path@) =~= seq![SegModel::Key("$ref"@)]);
                    }
                    Some(e)
                }
            },
            _ => None,
        }
    } else if str_eq(k, "additionalProperties") || str_eq(k, "items") || str_eq(k, "contains")
        || str_eq(k, "not") || str_eq(k, "if") || str_eq(k, "then") || str_eq(k, "else") {
        match ref_check(root, &m.1) {
            Some(e) => {
                let mut pre: Vec<PathSeg> = Vec::new();
                pre.push(PathSeg::Key(m.0.clone()));
                proof {
                    assert(segs_model(pre@) =~= seq![SegModel::Key(m.0@)]);
                }
                Some(ref_prefix(pre, e))
            },
            None => None,
        }
    } else if str_eq(k, "properties") || str_eq(k, "patternProperties") || str_eq(k, "$defs")
        || str_eq(k, "definitions") {
        match &m.1 {
            Value::Object(props) => {
                proof {
                    assert(props@.skip(0) =~= props@);
                }
                ref_map_check(root, &m.0, props, 0)
            },
            _ => None,
        }
    } else if str_eq(k, "allOf") || str_eq(k, "anyOf") || str_eq(k, "oneOf") {
        match &m.1 {
            Value::Array(subs) => {
                proof {
                    assert(subs@.skip(0) =~= subs@);
                }
                ref_array_check(root, &m.0, subs, 0)
            },
            _ => None,
        }
    } else {
        None
    }
}

fn ref_map_check(
    root: &Value,
    name: &String,
    props: &Vec<(String, Value)>,
    i: usize,
) -> (r: Option<RefIssue>)
    requires
        i <= props@.len(),
    ensures
        match r {
            Some(e) => ref_schema_map(*root, name@, props@.skip(i as int)) == Some(
                ref_issue_model(e),
            ),
            None => ref_schema_map(*root, name@, props@.skip(i as int)) is None,
        },
    decreases crate::value::seq_member_size(props@.skip(i as int)), 2nat, 0nat,
{
    let ghost s = props@.skip(i as int);
    if i == props.len() {
        return None;
    }
    proof {
        assert(s.drop_first() =~= props@.skip(i as int + 1));
        assert(s[0] == props@[i as int]);
        crate::value::lemma_member_size_unfold(props@, i as int);
        crate::value::lemma_value_size_pos(props@[i as int].1);
    }
    match ref_check(root, &props[i].1) {
        Some(e) => {
            let mut pre: Vec<PathSeg> = Vec::new();
            pre.push(PathSeg::Key(name.clone()));
            pre.push(PathSeg::Key(props[i].0.clone()));
            proof {
                assert(segs_model(pre@) =~= seq![
                    SegModel::Key(name@),
                    SegModel::Key(props@[i as int].0@),
                ]);
            }
            Some(ref_prefix(pre, e))
        },
        None => ref_map_check(root, name, props, i + 1),
    }
}

fn ref_array_check(root: &Value, name: &String, subs: &Vec<Value>, i: usize) -> (r: Option<
    RefIssue,
>)
    requires
        i <= subs@.len(),
    ensures
        match r {
            Some(e) => ref_schema_array(*root, name@, subs@.skip(i as int), i as int) == Some(
                ref_issue_model(e),
            ),
            None => ref_schema_array(*root, name@, subs@.skip(i as int), i as int) is None,
        },
    decreases crate::value::seq_value_size(subs@.skip(i as int)), 2nat, 0nat,
{
    let ghost s = subs@.skip(i as int);
    if i == subs.len() {
        return None;
    }
    proof {
        assert(s.drop_first() =~= subs@.skip(i as int + 1));
        assert(s[0] == subs@[i as int]);
        crate::value::lemma_seq_size_unfold(subs@, i as int);
        crate::value::lemma_value_size_pos(subs@[i as int]);
    }
    match ref_check(root, &subs[i]) {
        Some(e) => {
            let mut pre: Vec<PathSeg> = Vec::new();
            pre.push(PathSeg::Key(name.clone()));
            pre.push(PathSeg::Index(i));
            proof {
                assert(segs_model(pre@) =~= seq![SegModel::Key(name@), SegModel::Index(i as int)]);
            }
            Some(ref_prefix(pre, e))
        },
        None => ref_array_check(root, name, subs, i + 1),
    }
}

/// The first table is an initial segment of the second.
pub open spec fn table_extends(t1: Seq<(String, regex::Regex)>, t2: Seq<(String, regex::Regex)>) -> bool {
    t1.len() <= t2.len() && forall|j: int| 0 <= j < t1.len() ==> t2[j] == #[trigger] t1[j]
}

pub proof fn lemma_in_table_extends(
    t1: Seq<(String, regex::Regex)>,
    t2: Seq<(String, regex::Regex)>,
    p: Seq<char>,
)
    requires
        table_extends(t1, t2),
        in_table(t1, p),
    ensures
        in_table(t2, p),
{
    let i = choose|i: int| 0 <= i < t1.len() && #[trigger] t1[i].0@ == p;
    assert(t2[i].0@ == p);
}

pub proof fn lemma_keys_in_table_extends(
    t1: Seq<(String, regex::Regex)>,
    t2: Seq<(String, regex::Regex)>,
    pps: Seq<(String, Value)>,
)
    requires
        table_extends(t1, t2),
        keys_in_table(t1, pps),
    ensures
        keys_in_table(t2, pps),
    decreases pps.len(),
{
    if pps.len() > 0 {
        if pattern_valid(pps[0].0@) {
            lemma_in_table_extends(t1, t2, pps[0].0@);
        }
        lemma_keys_in_table_extends(t1, t2, pps.drop_first());
    }
}

pub proof fn lemma_covers_extends(
    t1: Seq<(String, regex::Regex)>,
    t2: Seq<(String, regex::Regex)>,
    v: Value,
)
    requires
        table_extends(t1, t2),
        covers(t1, v),
    ensures
        covers(t2, v),
    decreases value_size(v), 0nat, 0nat,
{
    match v {
        Value::Object(ms) => {
            match lookup_seq(ms@, "pattern"@) {
                Some(Value::Str(p)) => {
                    if pattern_valid(p@) {
                        lemma_in_table_extends(t1, t2, p@);
                    }
                },
                _ => {},
            }
            match lookup_seq(ms@, "patternProperties"@) {
                Some(Value::Object(pps)) => {
                    lemma_keys_in_table_extends(t1, t2, pps@);
                },
                _ => {},
            }
            lemma_members_covered_extends(t1, t2, ms@);
        },
        Value::Array(items) => {
            lemma_items_covered_extends(t1, t2, items@);
        },
        _ => {},
    }
}

pub proof fn lemma_members_covered_extends(
    t1: Seq<(String, regex::Regex)>,
    t2: Seq<(String, regex::Regex)>,
    ms: Seq<(String, Value)>,
)
    requires
        table_extends(t1, t2),
        members_covered(t1, ms),
    ensures
        members_covered(t2, ms),
    decreases crate::value::seq_member_size(ms), ms.len(), 1nat,
{
    if ms.len() > 0 {
        lemma_covers_extends(t1, t2, ms[0].1);
        lemma_members_covered_extends(t1, t2, ms.drop_first());
    }
}

pub proof fn lemma_items_covered_extends(
    t1: Seq<(String, regex::Regex)>,
    t2: Seq<(String, regex::Regex)>,
    items: Seq<Value>,
)
    requires
        table_extends(t1, t2),
        items_covered(t1, items),
    ensures
        items_covered(t2, items),
    decreases crate::value::seq_value_size(items), items.len(), 1nat,
{
    if items.len() > 0 {
        lemma_covers_extends(t1, t2, items[0]);
        lemma_items_covered_extends(t1, t2, items.drop_first());
    }
}

/// The per-member facts the pattern collector establishes; they imply the
/// lookup-based `local_patterns_ok`.
pub open spec fn pattern_members_ok(
    t: Seq<(String, regex::Regex)>,
    ms: Seq<(String, Value)>,
) -> bool
    decreases ms.len(),
{
    ms.len() == 0 || {
        &&& (ms[0].0@ == "pattern"@ ==> match ms[0].1 {
            Value::Str(p) => pattern_valid(p@) ==> in_table(t, p@),
            _ => true,
        })
        &&& (ms[0].0@ == "patternProperties"@ ==> match ms[0].1 {
            Value::Object(pps) => keys_in_table(t, pps@),
            _ => true,
        })
        &&& pattern_members_ok(t, ms.drop_first())
    }
}

pub proof fn lemma_pattern_members_local(
    t: Seq<(String, regex::Regex)>,
    ms: Seq<(String, Value)>,
)
    requires
        pattern_members_ok(t, ms),
    ensures
        local_patterns_ok(t, ms),
    decreases ms.len(),
{
    if ms.len() > 0 {
        lemma_pattern_members_local(t, ms.drop_first());
    }
}

pub proof fn lemma_pattern_members_extends(
    t1: Seq<(String, regex::Regex)>,
    t2: Seq<(String, regex::Regex)>,
    ms: Seq<(String, Value)>,
)
    requires
        table_extends(t1, t2),
        pattern_members_ok(t1, ms),
    ensures
        pattern_members_ok(t2, ms),
    decreases ms.len(),
{
    if ms.len() > 0 {
        if ms[0].0@ == "pattern"@ {
            match ms[0].1 {
                Value::Str(p) => {
                    if pattern_valid(p@) {
                        lemma_in_table_extends(t1, t2, p@);
                    }
                },
                _ => {},
            }
        }
        if ms[0].0@ == "patternProperties"@ {
            match ms[0].1 {
                Value::Object(pps) => {
                    lemma_keys_in_table_extends(t1, t2, pps@);
                },
                _ => {},
            }
        }
        lemma_pattern_members_extends(t1, t2, ms.drop_first());
    }
}

/// Compiles the pattern `p` into the table, unless it is already there or is
/// no valid pattern.
fn add_pattern(table: &mut Vec<(String, regex::Regex)>, p: &String)
    requires
        table_ok(old(table)@),
    ensures
        table_ok(final(table)@),
        table_extends(old(table)@, final(table)@),
        pattern_valid(p@) ==> in_table(final(table)@, p@),
{
    match crate::eval::find_pattern(table, p) {
        Some(_) => {},
        None => {
            match crate::rx::regex_new(p.as_str()) {
                Some(re) => {
                    let ghost prev = table@;
                    table.push((p.clone(), re));
                    proof {
                        assert(table@[prev.len() as int].0@ == p@);
                        assert(forall|i: int|
                            0 <= i < table@.len() ==> pattern_valid(#[trigger] table@[i].0@)
                                && crate::rx::regex_lang(table@[i].1) == crate::rx::pattern_lang(
                                table@[i].0@,
                            ));
                    }
                },
                None => {},
            }
        },
    }
}

fn add_pp_keys(table: &mut Vec<(String, regex::Regex)>, pps: &Vec<(String, Value)>, i: usize)
    requires
        i <= pps@.len(),
        table_ok(old(table)@),
    ensures
        table_ok(final(table)@),
        table_extends(old(table)@, final(table)@),
        keys_in_table(final(table)@, pps@.skip(i as int)),
    decreases pps@.len() - i,
{
    let ghost s = pps@.skip(i as int);
    if i == pps.len() {
        return ;
    }
    proof {
        assert(s.drop_first() =~= pps@.skip(i as int + 1));
        assert(s[0] == pps@[i as int]);
    }
    add_pattern(table, &pps[i].0);
    let ghost mid = table@;
    add_pp_keys(table, pps, i + 1);
    proof {
        if pattern_valid(pps@[i as int].0@) {
            lemma_in_table_extends(mid, table@, pps@[i as int].0@);
        }
    }
}

/// Walks a value and compiles every pattern that can serve anywhere inside
/// it, so that evaluation never compiles a regular expression.
fn collect_patterns(table: &mut Vec<(String, regex::Regex)>, v: &Value)
    requires
        table_ok(old(table)@),
    ensures
        table_ok(final(table)@),
        table_extends(old(table)@, final(table)@),
        covers(final(table)@, *v),
    decreases value_size(*v), 1nat, 0nat,
{
    match v {
        Value::Object(ms) => {
            proof {
                assert(ms@.skip(0) =~= ms@);
            }
            collect_members(table, ms, 0);
            proof {
                lemma_pattern_members_local(table@, ms@);
            }
        },
        Value::Array(items) => {
            proof {
                assert(items@.skip(0) =~= items@);
            }
            collect_items(table, items, 0);
        },
        _ => {},
    }
}

fn collect_members(table: &mut Vec<(String, regex::Regex)>, ms: &Vec<(String, Value)>, i: usize)
    requires
        i <= ms@.len(),
        table_ok(old(table)@),
    ensures
        table_ok(final(table)@),
        table_extends(old(table)@, final(table)@),
        members_covered(final(table)@, ms@.skip(i as int)),
        pattern_members_ok(final(table)@, ms@.skip(i as int)),
    decreases crate::value::seq_member_size(ms@.skip(i as int)), 2nat, ms@.len() - i,
{
    let ghost s = ms@.skip(i as int);
    if i == ms.len() {
        return ;
    }
    proof {
        assert(s.drop_first() =~= ms@.skip(i as int + 1));
        assert(s[0] == ms@[i as int]);
        crate::value::lemma_member_size_unfold(ms@, i as int);
        crate::value::lemma_value_size_pos(ms@[i as int].1);
    }
    if str_eq(ms[i].0.as_str(), "pattern") {
        match &ms[i].1 {
            Value::Str(p) => {
                add_pattern(table, p);
            },
            _ => {},
        }
    }
    if str_eq(ms[i].0.as_str(), "patternProperties") {
        match &ms[i].1 {
            Value::Object(pps) => {
                proof {
                    assert(pps@.skip(0) =~= pps@);
                }
                add_pp_keys(table, pps, 0);
            },
            _ => {},
        }
    }
    let ghost t1 = table@;
    collect_patterns(table, &ms[i].1);
    let ghost t2 = table@;
    collect_members(table, ms, i + 1);
    proof {
        lemma_covers_extends(t2, table@, ms@[i as int].1);
        match ms@[i as int].1 {
            Value::Str(p) => {
                if ms@[i as int].0@ == "pattern"@ && pattern_valid(p@) {
                    lemma_in_table_extends(t1, t2, p@);
                    lemma_in_table_extends(t2, table@, p@);
                }
            },
            Value::Object(pps) => {
                if ms@[i as int].0@ == "patternProperties"@ {
                    lemma_keys_in_table_extends(t1, t2, pps@);
                    lemma_keys_in_table_extends(t2, table@, pps@);
                }
            },
            _ => {},
        }
    }
}

fn collect_items(table: &mut Vec<(String, regex::Regex)>, items: &Vec<Value>, i: usize)
    requires
        i <= items@.len(),
        table_ok(old(table)@),
    ensures
        table_ok(final(table)@),
        table_extends(old(table)@, final(table)@),
        items_covered(final(table)@, items@.skip(i as int)),
    decreases crate::value::seq_value_size(items@.skip(i as int)), 2nat, items@.len() - i,
{
    let ghost s = items@.skip(i as int);
    if i == items.len() {
        return ;
    }
    proof {
        assert(s.drop_first() =~= items@.skip(i as int + 1));
        assert(s[0] == items@[i as int]);
        crate::value::lemma_seq_size_unfold(items@, i as int);
        crate::value::lemma_value_size_pos(items@[i as int]);
    }
    let ghost t1 = table@;
    collect_patterns(table, &items[i]);
    let ghost t2 = table@;
    collect_items(table, items, i + 1);
    proof {
        lemma_covers_extends(t2, table@, items@[i as int]);
    }
}

/// A compiled validator: the schema document together with every regular
/// expression it can use, compiled once.
pub struct CompiledValidator<'s> {
    pub doc: &'s Value,
    pub table: Vec<(String, regex::Regex)>,
}

impl<'s> CompiledValidator<'s> {
    /// Well-formedness: the table's expressions are faithful to their
    /// pattern strings, and every pattern the schema can reach is there.
    pub open spec fn wf(self) -> bool {
        table_ok(self.table@) && covers(self.table@, *self.doc)
    }

    /// Boolean mode: whether the instance satisfies the schema.
    pub fn is_valid(&self, instance: &Value) -> (r: bool)
        requires
            self.wf(),
        ensures
            r == crate::sem::sem_valid(
                *self.doc,
                *self.doc,
                *instance,
                crate::EVAL_FUEL as nat,
            ),
    {
        crate::eval::eval_valid(self.doc, &self.table, self.doc, instance, crate::EVAL_FUEL)
    }

    /// Diagnostic mode: every violation, in evaluation order.
    pub fn errors<'a>(&self, instance: &'a Value) -> (r: Vec<crate::eval::ValidationError<'a>>)
        requires
            self.wf(),
        ensures
            crate::eval::errs_model(r@) == crate::sem::sem_errors(
                *self.doc,
                *self.doc,
                *instance,
                crate::EVAL_FUEL as nat,
            ),
    {
        crate::eval::eval_errors(self.doc, &self.table, self.doc, instance, crate::EVAL_FUEL)
    }
}

impl CompileError {
    /// The schema path of the fault as a JSON-Pointer string.
    pub fn schema_path_string(&self) -> (s: String)
        ensures
            s@ == crate::eval::path_ptr(segs_model(self.schema_path@)),
    {
        crate::eval::path_string(&self.schema_path)
    }
}

pub enum CompileErrorKind {
    UnknownDialect,
    InvalidSchema,
    UnresolvedReference,
}

/// Why a schema was refused, with the path of the offending keyword and a
/// rendered message.
pub struct CompileError {
    pub kind: CompileErrorKind,
    pub schema_path: Vec<PathSeg>,
    pub keyword: String,
    pub message: String,
}

/// The error record reports exactly the fault the compiler found.
pub open spec fn compile_error_matches(e: CompileError, f: CompileFault) -> bool {
    &&& e.message@ == compile_fault_msg(f)
    &&& match f {
        CompileFault::Dialect => e.kind is UnknownDialect && segs_model(e.schema_path@) == seq![
            SegModel::Key("$schema"@),
        ] && e.keyword@ == "$schema"@,
        CompileFault::Shape(mf) => e.kind is InvalidSchema && segs_model(e.schema_path@)
            == mf.spath && e.keyword@ == mf.kw,
        CompileFault::Reference(_, p) => e.kind is UnresolvedReference && segs_model(
            e.schema_path@,
        ) == p && e.keyword@ == "$ref"@,
    }
}

fn known_dialect_exec(u: &String) -> (r: bool)
    ensures
        r == known_dialect(u@),
{
    str_eq(u.as_str(), "https://json-schema.org/draft/2020-12/schema") || str_eq(
        u.as_str(),
        "https://json-schema.org/draft/2019-09/schema",
    ) || str_eq(u.as_str(), "http://json-schema.org/draft-07/schema#") || str_eq(
        u.as_str(),
        "http://json-schema.org/draft-06/schema#",
    ) || str_eq(u.as_str(), "http://json-schema.org/draft-04/schema#")
}

fn dialect_check(doc: &Value) -> (r: bool)
    ensures
        r == dialect_ok(*doc),
{
    match doc {
        Value::Object(ms) => {
            match crate::eval::lookup_str(ms, "$schema") {
                Some(Value::Str(u)) => known_dialect_exec(u),
                Some(_) => false,
                None => true,
            }
        },
        _ => true,
    }
}

/// Meta-validates a schema document: its dialect is recognized and it has no
/// structural fault.
pub fn check_schema(doc: &Value) -> (r: bool)
    ensures
        r == schema_ok(*doc),
{
    if !dialect_check(doc) {
        return false;
    }
    meta_check(doc).is_none()
}

/// Compiles a schema: meta-validation first, then reference resolution, then
/// the pattern table.  A schema that fails never yields a validator.
pub fn compile<'s>(schema: &'s Value) -> (r: Result<CompiledValidator<'s>, CompileError>)
    ensures
        (r is Ok) == (compile_fault(*schema) is None),
        r matches Ok(cv) ==> cv.wf() && cv.doc == schema,
        r matches Err(e) ==> compile_fault(*schema) matches Some(f) && compile_error_matches(e, f),
{
    if !dialect_check(schema) {
        let mut sp: Vec<PathSeg> = Vec::new();
        sp.push(PathSeg::Key(String::from_str("$schema")));
        let e = CompileError {
            kind: CompileErrorKind::UnknownDialect,
            schema_path: sp,
            keyword: String::from_str("$schema"),
            message: String::from_str("the \"$schema\" dialect is not recognized"),
        };
        proof {
            assert(segs_model(e.schema_path@) =~= seq![SegModel::Key("$schema"@)]);
        }
        return Err(e);
    }
    match meta_check(schema) {
        Some(iss) => {
            let mut m = String::from_str("invalid schema: bad value for keyword ");
            crate::eval::push_quoted(iss.keyword.as_str(), &mut m);
            let e = CompileError {
                kind: CompileErrorKind::InvalidSchema,
                schema_path: iss.schema_path,
                keyword: iss.keyword,
                message: m,
            };
            return Err(e);
        },
        None => {},
    }
    match ref_check(schema, schema) {
        Some(ri) => {
            let mut m = String::from_str("the reference ");
            crate::eval::push_quoted(ri.reference.as_str(), &mut m);
            m.append(" cannot be resolved");
            let e = CompileError {
                kind: CompileErrorKind::UnresolvedReference,
                schema_path: ri.schema_path,
                keyword: String::from_str("$ref"),
                message: m,
            };
            return Err(e);
        },
        None => {},
    }
    let mut table: Vec<(String, regex::Regex)> = Vec::new();
    proof {
        assert(table_ok(table@));
    }
    collect_patterns(&mut table, schema);
    Ok(CompiledValidator { doc: schema, table })
}

} // verus!
